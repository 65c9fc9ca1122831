//! What holds of reading, reordering and evaluation together.

use vstd::prelude::*;
use crate::eval::{rpn_tree, Expr};
use crate::grammar::{read_expression, reference_evaluation, reference_outcome};
use crate::lexer::{all_read_as, lemma_assign_needs_its_sign, scan, Lexeme};
use crate::reorder::postfix_of;
use crate::session::{
    assignment_target, exit_word, expression_outcome, line_outcome, reads_and_runs,
    statement_outcome, Reply,
};
use crate::token::{Fault, Operator, Symbol};

pub mod eval;
pub mod reading;
pub mod reorder;

use eval::{
    deterministic, lemma_groups_keep_values, lemma_postfix_denotes_tree, lemma_value_is_unique,
};
use reading::lemma_reading_is_sound;
use reorder::lemma_reorder_gives_postfix;

verus! {

/// Reordering the infix form of a well-formed expression and evaluating
/// the result has the outcomes that evaluating the tree directly has, and
/// no others.
pub proof fn lemma_reorder_then_evaluate_matches_tree<V>(
    arithmetic: spec_fn(Operator, V, V, V) -> bool,
    variables: Map<Seq<char>, V>,
    expr: Expr<V>,
    outcome: Result<V, Fault>,
)
    requires
        expr.well_formed(),
    ensures
        expression_outcome(arithmetic, variables, expr.infix(), outcome) == reference_outcome(
            arithmetic,
            variables,
            expr,
            outcome,
        ),
{
    lemma_reorder_gives_postfix(expr);
    lemma_postfix_denotes_tree(expr, variables.dom());
    match outcome {
        Ok(value) => {
            lemma_groups_keep_values(arithmetic, variables, expr, value);
        },
        Err(_) => {},
    }
}

/// For every infix sequence that the reference reading accepts, reordering
/// it and evaluating the result has the outcomes of the reference
/// evaluation, and no others.
pub proof fn lemma_reorder_then_evaluate_matches_reference<V>(
    arithmetic: spec_fn(Operator, V, V, V) -> bool,
    variables: Map<Seq<char>, V>,
    infix: Seq<Symbol<V>>,
    outcome: Result<V, Fault>,
)
    requires
        read_expression(infix) is Some,
    ensures
        expression_outcome(arithmetic, variables, infix, outcome) == reference_evaluation(
            arithmetic,
            variables,
            infix,
            outcome,
        ),
{
    lemma_reading_is_sound(infix);
    lemma_reorder_then_evaluate_matches_tree(
        arithmetic,
        variables,
        read_expression(infix)->0,
        outcome,
    );
}

/// Evaluating an expression twice over the same variables, with a
/// deterministic arithmetic, gives the same outcome twice.
pub proof fn lemma_evaluation_repeats<V>(
    arithmetic: spec_fn(Operator, V, V, V) -> bool,
    variables: Map<Seq<char>, V>,
    infix: Seq<Symbol<V>>,
    first: Result<V, Fault>,
    second: Result<V, Fault>,
)
    requires
        deterministic(arithmetic),
        expression_outcome(arithmetic, variables, infix, first),
        expression_outcome(arithmetic, variables, infix, second),
    ensures
        first == second,
{
    match postfix_of(infix) {
        Some(postfix) => {
            match rpn_tree(postfix, variables.dom()) {
                Ok(expr) => {
                    lemma_value_is_unique(
                        arithmetic,
                        variables,
                        expr,
                        first->Ok_0,
                        second->Ok_0,
                    );
                },
                Err(_) => {},
            }
        },
        None => {},
    }
}

/// A statement without an assignment leaves the variables as they were, so
/// running it again, with a deterministic arithmetic, gives the same
/// outcome and again changes nothing.
pub proof fn lemma_expression_statement_repeats<V>(
    arithmetic: spec_fn(Operator, V, V, V) -> bool,
    before: Map<Seq<char>, V>,
    statement: Seq<Symbol<V>>,
    first: Result<V, Fault>,
    between: Map<Seq<char>, V>,
    second: Result<V, Fault>,
    after: Map<Seq<char>, V>,
)
    requires
        deterministic(arithmetic),
        !statement.contains(Symbol::Assign),
        statement_outcome(arithmetic, before, statement, first, between),
        statement_outcome(arithmetic, between, statement, second, after),
    ensures
        between == before,
        after == before,
        first == second,
{
    lemma_evaluation_repeats(arithmetic, before, statement, first, second);
}

/// A statement that starts from given variables, with a deterministic
/// arithmetic, has one outcome and leaves the variables in one state.
pub proof fn lemma_statement_is_deterministic<V>(
    arithmetic: spec_fn(Operator, V, V, V) -> bool,
    before: Map<Seq<char>, V>,
    statement: Seq<Symbol<V>>,
    first: Result<V, Fault>,
    first_after: Map<Seq<char>, V>,
    second: Result<V, Fault>,
    second_after: Map<Seq<char>, V>,
)
    requires
        deterministic(arithmetic),
        statement_outcome(arithmetic, before, statement, first, first_after),
        statement_outcome(arithmetic, before, statement, second, second_after),
    ensures
        first == second,
        first_after == second_after,
{
    if !statement.contains(Symbol::Assign) {
        lemma_evaluation_repeats(arithmetic, before, statement, first, second);
    } else {
        match assignment_target(statement) {
            Some(_) => {
                lemma_evaluation_repeats(arithmetic, before, statement.skip(2), first, second);
            },
            None => {},
        }
    }
}

/// Whether the reader of literals gives one answer for a given word.
pub open spec fn single_valued<V>(reading: spec_fn(Seq<char>, Option<V>) -> bool) -> bool {
    forall|word: Seq<char>, first: Option<V>, second: Option<V>|
        #![trigger reading(word, first), reading(word, second)]
        reading(word, first) && reading(word, second) ==> first == second
}

/// With a single-valued reader the lexemes of a line read as one sequence
/// of tokens.
pub proof fn lemma_tokens_are_unique<V>(
    reading: spec_fn(Seq<char>, Option<V>) -> bool,
    lexemes: Seq<Lexeme>,
    first: Seq<Symbol<V>>,
    second: Seq<Symbol<V>>,
)
    requires
        single_valued(reading),
        all_read_as(reading, lexemes, first),
        all_read_as(reading, lexemes, second),
    ensures
        first == second,
{
}

/// A line that starts from given variables, with a single-valued reader
/// and a deterministic arithmetic, has one outcome and leaves the variables
/// in one state.
pub proof fn lemma_line_is_deterministic<V>(
    reading: spec_fn(Seq<char>, Option<V>) -> bool,
    arithmetic: spec_fn(Operator, V, V, V) -> bool,
    before: Map<Seq<char>, V>,
    text: Seq<char>,
    first: Result<Reply<V>, Fault>,
    first_after: Map<Seq<char>, V>,
    second: Result<Reply<V>, Fault>,
    second_after: Map<Seq<char>, V>,
)
    requires
        single_valued(reading),
        deterministic(arithmetic),
        line_outcome(reading, arithmetic, before, text, first, first_after),
        line_outcome(reading, arithmetic, before, text, second, second_after),
    ensures
        first == second,
        first_after == second_after,
{
    if text != exit_word() {
        match scan(text) {
            Ok(lexemes) => {
                let one = choose|statement: Seq<Symbol<V>>|
                    reads_and_runs(
                        reading,
                        arithmetic,
                        before,
                        lexemes,
                        statement,
                        first,
                        first_after,
                    );
                let other = choose|statement: Seq<Symbol<V>>|
                    reads_and_runs(
                        reading,
                        arithmetic,
                        before,
                        lexemes,
                        statement,
                        second,
                        second_after,
                    );
                lemma_tokens_are_unique(reading, lexemes, one, other);
                lemma_statement_is_deterministic(
                    arithmetic,
                    before,
                    one,
                    value_of(first),
                    first_after,
                    value_of(second),
                    second_after,
                );
            },
            Err(_) => {},
        }
    }
}

/// The value or fault of a reply that is not the one to the exit word.
pub open spec fn value_of<V>(outcome: Result<Reply<V>, Fault>) -> Result<V, Fault> {
    match outcome {
        Ok(Reply::Value(value)) => Ok(value),
        Ok(Reply::Exit) => Err(Fault::MalformedExpression),
        Err(fault) => Err(fault),
    }
}

/// A line without an assignment sign leaves the variables as they were, so
/// the same line again, with a single-valued reader and a deterministic
/// arithmetic, has the same outcome and again changes nothing.
pub proof fn lemma_expression_line_repeats<V>(
    reading: spec_fn(Seq<char>, Option<V>) -> bool,
    arithmetic: spec_fn(Operator, V, V, V) -> bool,
    before: Map<Seq<char>, V>,
    text: Seq<char>,
    first: Result<Reply<V>, Fault>,
    between: Map<Seq<char>, V>,
    second: Result<Reply<V>, Fault>,
    after: Map<Seq<char>, V>,
)
    requires
        single_valued(reading),
        deterministic(arithmetic),
        !text.contains('='),
        line_outcome(reading, arithmetic, before, text, first, between),
        line_outcome(reading, arithmetic, between, text, second, after),
    ensures
        between == before,
        after == before,
        first == second,
{
    lemma_assign_needs_its_sign(text);
    lemma_line_is_deterministic(
        reading,
        arithmetic,
        before,
        text,
        first,
        between,
        second,
        after,
    );
}

} // verus!
