//! The reference reading of infix sequences accepts the infix forms of the
//! well-formed trees, and nothing else.

use vstd::prelude::*;
use crate::eval::Expr;
use crate::grammar::{more_factors, more_terms, read_atom, read_expression, read_product, read_sum};
use crate::token::Symbol;

verus! {

/// What `read_atom` reads is a well-formed operand, and the input is its
/// infix form and then the rest.
proof fn lemma_read_atom_sound<V>(input: Seq<Symbol<V>>)
    ensures
        read_atom(input) matches Some((expr, rest)) ==> input == expr.infix() + rest
            && expr.well_formed() && expr.level() == 3,
    decreases input.len(), 0nat,
{
    if input.len() > 0 && input.first() == Symbol::<V>::LeftParen {
        lemma_read_sum_sound(input.drop_first());
        assert(input =~= seq![Symbol::<V>::LeftParen] + input.drop_first());
    }
}

/// What `read_product` reads is a well-formed product, and the input is
/// its infix form and then the rest.
proof fn lemma_read_product_sound<V>(input: Seq<Symbol<V>>)
    ensures
        read_product(input) matches Some((expr, rest)) ==> input == expr.infix() + rest
            && expr.well_formed() && expr.level() >= 2,
    decreases input.len(), 2nat,
{
    lemma_read_atom_sound(input);
    match read_atom(input) {
        Some((left, rest)) => {
            if rest.len() < input.len() {
                lemma_more_factors_sound(left, rest);
            }
        },
        None => {},
    }
}

/// Going on from a product gives a product, and consumes its further
/// factors.
proof fn lemma_more_factors_sound<V>(left: Expr<V>, input: Seq<Symbol<V>>)
    requires
        left.well_formed(),
        left.level() >= 2,
    ensures
        more_factors(left, input) matches Some((expr, rest)) ==> left.infix() + input
            == expr.infix() + rest && expr.well_formed() && expr.level() >= 2,
    decreases input.len(), 1nat,
{
    if input.len() > 0 {
        match input.first() {
            Symbol::Operator(op) => {
                if op.rank() == 2 {
                    lemma_read_atom_sound(input.drop_first());
                    match read_atom(input.drop_first()) {
                        Some((right, rest)) => {
                            if rest.len() < input.len() {
                                let node = Expr::Binary(op, Box::new(left), Box::new(right));
                                lemma_more_factors_sound(node, rest);
                                assert(input =~= seq![Symbol::<V>::Operator(op)]
                                    + input.drop_first());
                            }
                        },
                        None => {},
                    }
                }
            },
            _ => {},
        }
    }
}

/// What `read_sum` reads is a well-formed expression, and the input is its
/// infix form and then the rest.
proof fn lemma_read_sum_sound<V>(input: Seq<Symbol<V>>)
    ensures
        read_sum(input) matches Some((expr, rest)) ==> input == expr.infix() + rest
            && expr.well_formed() && expr.level() >= 1,
    decreases input.len(), 4nat,
{
    lemma_read_product_sound(input);
    match read_product(input) {
        Some((left, rest)) => {
            if rest.len() < input.len() {
                lemma_more_terms_sound(left, rest);
            }
        },
        None => {},
    }
}

/// Going on from a sum gives a sum, and consumes its further terms.
proof fn lemma_more_terms_sound<V>(left: Expr<V>, input: Seq<Symbol<V>>)
    requires
        left.well_formed(),
        left.level() >= 1,
    ensures
        more_terms(left, input) matches Some((expr, rest)) ==> left.infix() + input
            == expr.infix() + rest && expr.well_formed() && expr.level() >= 1,
    decreases input.len(), 3nat,
{
    if input.len() > 0 {
        match input.first() {
            Symbol::Operator(op) => {
                if op.rank() == 1 {
                    lemma_read_product_sound(input.drop_first());
                    match read_product(input.drop_first()) {
                        Some((right, rest)) => {
                            if rest.len() < input.len() {
                                let node = Expr::Binary(op, Box::new(left), Box::new(right));
                                lemma_more_terms_sound(node, rest);
                                assert(input =~= seq![Symbol::<V>::Operator(op)]
                                    + input.drop_first());
                            }
                        },
                        None => {},
                    }
                }
            },
            _ => {},
        }
    }
}

/// What the reference reading makes of an infix sequence is a well-formed
/// tree, and the sequence is its infix form.
pub proof fn lemma_reading_is_sound<V>(input: Seq<Symbol<V>>)
    ensures
        read_expression(input) matches Some(expr) ==> expr.well_formed() && expr.infix() == input,
{
    lemma_read_sum_sound(input);
}

/// Whether the input starts with `*` or `/`.
pub open spec fn starts_with_factor_sign<V>(input: Seq<Symbol<V>>) -> bool {
    input.len() > 0 && match input.first() {
        Symbol::Operator(op) => op.rank() == 2,
        _ => false,
    }
}

/// No expression has an empty infix form.
proof fn lemma_infix_is_not_empty<V>(expr: Expr<V>)
    ensures
        expr.infix().len() > 0,
    decreases expr,
{
    match expr {
        Expr::Binary(_, left, _) => {
            lemma_infix_is_not_empty(*left);
        },
        _ => {},
    }
}

/// `read_atom` reads the infix form of a well-formed operand, whatever
/// follows it.
proof fn lemma_reads_atom<V>(expr: Expr<V>, tail: Seq<Symbol<V>>)
    requires
        expr.well_formed(),
        expr.level() == 3,
    ensures
        read_atom(expr.infix() + tail) == Some((expr, tail)),
    decreases expr, 0nat,
{
    match expr {
        Expr::Group(inner) => {
            let closing = seq![Symbol::<V>::RightParen] + tail;
            assert((expr.infix() + tail).drop_first() =~= inner.infix() + closing);
            lemma_reads_sum(*inner, closing);
        },
        _ => {},
    }
}

/// `read_product` reads the infix form of a well-formed product and goes on
/// with what follows it.
proof fn lemma_reads_product<V>(expr: Expr<V>, tail: Seq<Symbol<V>>)
    requires
        expr.well_formed(),
        expr.level() >= 2,
    ensures
        read_product(expr.infix() + tail) == more_factors(expr, tail),
    decreases expr, 1nat,
{
    lemma_infix_is_not_empty(expr);
    match expr {
        Expr::Binary(op, left, right) => {
            let next = seq![Symbol::<V>::Operator(op)] + right.infix() + tail;
            assert(expr.infix() + tail =~= left.infix() + next);
            lemma_reads_product(*left, next);
            assert(next.drop_first() =~= right.infix() + tail);
            lemma_reads_atom(*right, tail);
            lemma_infix_is_not_empty(*right);
        },
        _ => {
            lemma_reads_atom(expr, tail);
        },
    }
}

/// `read_sum` reads the infix form of a well-formed expression and goes on
/// with what follows it, unless that starts with `*` or `/`.
proof fn lemma_reads_sum<V>(expr: Expr<V>, tail: Seq<Symbol<V>>)
    requires
        expr.well_formed(),
        !starts_with_factor_sign(tail),
    ensures
        read_sum(expr.infix() + tail) == more_terms(expr, tail),
    decreases expr, 2nat,
{
    lemma_infix_is_not_empty(expr);
    if expr.level() >= 2 {
        lemma_reads_product(expr, tail);
    } else {
        match expr {
            Expr::Binary(op, left, right) => {
                let next = seq![Symbol::<V>::Operator(op)] + right.infix() + tail;
                assert(expr.infix() + tail =~= left.infix() + next);
                lemma_reads_sum(*left, next);
                assert(next.drop_first() =~= right.infix() + tail);
                lemma_reads_product(*right, tail);
                lemma_infix_is_not_empty(*right);
            },
            _ => {},
        }
    }
}

/// The reference reading gives every well-formed tree back from its infix
/// form.
pub proof fn lemma_reading_is_complete<V>(expr: Expr<V>)
    requires
        expr.well_formed(),
    ensures
        read_expression(expr.infix()) == Some(expr),
{
    lemma_reads_sum(expr, Seq::empty());
}

} // verus!
