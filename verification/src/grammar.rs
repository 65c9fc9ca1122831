//! Expressions as trees: how a tree is written in infix and in postfix
//! form, and which trees a reading with precedence produces.

use vstd::prelude::*;
use crate::eval::{computes, Expr};
use crate::token::{Fault, Operator, Symbol};

verus! {

impl<V> Expr<V> {
    /// The expression written in infix form: an operator between its
    /// operands, a group between parentheses.
    pub open spec fn infix(self) -> Seq<Symbol<V>>
        decreases self,
    {
        match self {
            Expr::Number(value) => seq![Symbol::Number(value)],
            Expr::Variable(name) => seq![Symbol::Variable(name)],
            Expr::Group(inner) => seq![Symbol::LeftParen] + inner.infix() + seq![
                Symbol::RightParen,
            ],
            Expr::Binary(op, left, right) => left.infix() + seq![Symbol::Operator(op)]
                + right.infix(),
        }
    }

    /// The expression written in postfix form: an operator after its
    /// operands, and no parentheses.
    pub open spec fn postfix(self) -> Seq<Symbol<V>>
        decreases self,
    {
        match self {
            Expr::Number(value) => seq![Symbol::Number(value)],
            Expr::Variable(name) => seq![Symbol::Variable(name)],
            Expr::Group(inner) => inner.postfix(),
            Expr::Binary(op, left, right) => left.postfix() + right.postfix() + seq![
                Symbol::Operator(op),
            ],
        }
    }

    /// How tightly the expression holds together: the strength of its
    /// operator, and more than any operator has for a number, a variable
    /// or a group.
    pub open spec fn level(self) -> nat {
        match self {
            Expr::Binary(op, _, _) => op.rank(),
            _ => 3,
        }
    }

    /// Whether the tree is the one that a reading with precedence and left
    /// associativity gives to its infix form: the left operand of an
    /// operator holds together at least as tightly as the operator, and the
    /// right operand more tightly.
    pub open spec fn well_formed(self) -> bool
        decreases self,
    {
        match self {
            Expr::Number(_) => true,
            Expr::Variable(_) => true,
            Expr::Group(inner) => inner.well_formed(),
            Expr::Binary(op, left, right) => {
                &&& left.well_formed()
                &&& right.well_formed()
                &&& left.level() >= op.rank()
                &&& right.level() > op.rank()
            },
        }
    }

    /// The tree without its groups.
    pub open spec fn plain(self) -> Expr<V>
        decreases self,
    {
        match self {
            Expr::Number(value) => Expr::Number(value),
            Expr::Variable(name) => Expr::Variable(name),
            Expr::Group(inner) => inner.plain(),
            Expr::Binary(op, left, right) => Expr::Binary(
                op,
                Box::new(left.plain()),
                Box::new(right.plain()),
            ),
        }
    }

    /// The first variable, from left to right, that has no value.
    pub open spec fn first_undefined(self, defined: Set<Seq<char>>) -> Option<Seq<char>>
        decreases self,
    {
        match self {
            Expr::Number(_) => None,
            Expr::Variable(name) => if defined.contains(name) {
                None
            } else {
                Some(name)
            },
            Expr::Group(inner) => inner.first_undefined(defined),
            Expr::Binary(_, left, right) => match left.first_undefined(defined) {
                Some(name) => Some(name),
                None => right.first_undefined(defined),
            },
        }
    }
}

/// Whether `outcome` is an outcome of evaluating the tree directly, operands
/// from left to right: the first variable without a value is reported, and
/// where there is none the outcome is a value of the tree.
pub open spec fn reference_outcome<V>(
    arithmetic: spec_fn(Operator, V, V, V) -> bool,
    variables: Map<Seq<char>, V>,
    expr: Expr<V>,
    outcome: Result<V, Fault>,
) -> bool {
    match expr.first_undefined(variables.dom()) {
        Some(name) => outcome == Err::<V, Fault>(Fault::UndefinedVariable(name)),
        None => outcome matches Ok(value) && computes(arithmetic, variables, expr, value),
    }
}

/// Reads one operand from the start of the input: a number, a variable, or
/// a sum between parentheses. Gives the operand and what follows it.
pub open spec fn read_atom<V>(input: Seq<Symbol<V>>) -> Option<(Expr<V>, Seq<Symbol<V>>)>
    decreases input.len(), 0nat,
{
    if input.len() == 0 {
        None
    } else {
        match input.first() {
            Symbol::Number(value) => Some((Expr::Number(value), input.drop_first())),
            Symbol::Variable(name) => Some((Expr::Variable(name), input.drop_first())),
            Symbol::LeftParen => match read_sum(input.drop_first()) {
                Some((inner, rest)) => if rest.len() > 0 && rest.first()
                    == Symbol::<V>::RightParen {
                    Some((Expr::Group(Box::new(inner)), rest.drop_first()))
                } else {
                    None
                },
                None => None,
            },
            _ => None,
        }
    }
}

/// Reads operands joined by `*` and `/`, associating to the left.
pub open spec fn read_product<V>(input: Seq<Symbol<V>>) -> Option<(Expr<V>, Seq<Symbol<V>>)>
    decreases input.len(), 2nat,
{
    match read_atom(input) {
        Some((left, rest)) => if rest.len() < input.len() {
            more_factors(left, rest)
        } else {
            None
        },
        None => None,
    }
}

/// Goes on from a product read so far: while a `*` or `/` follows, the next
/// operand becomes the right operand of a node over what was read.
pub open spec fn more_factors<V>(left: Expr<V>, input: Seq<Symbol<V>>) -> Option<
    (Expr<V>, Seq<Symbol<V>>),
>
    decreases input.len(), 1nat,
{
    if input.len() == 0 {
        Some((left, input))
    } else {
        match input.first() {
            Symbol::Operator(op) => if op.rank() == 2 {
                match read_atom(input.drop_first()) {
                    Some((right, rest)) => if rest.len() < input.len() {
                        more_factors(Expr::Binary(op, Box::new(left), Box::new(right)), rest)
                    } else {
                        None
                    },
                    None => None,
                }
            } else {
                Some((left, input))
            },
            _ => Some((left, input)),
        }
    }
}

/// Reads products joined by `+` and `-`, associating to the left.
pub open spec fn read_sum<V>(input: Seq<Symbol<V>>) -> Option<(Expr<V>, Seq<Symbol<V>>)>
    decreases input.len(), 4nat,
{
    match read_product(input) {
        Some((left, rest)) => if rest.len() < input.len() {
            more_terms(left, rest)
        } else {
            None
        },
        None => None,
    }
}

/// Goes on from a sum read so far: while a `+` or `-` follows, the next
/// product becomes the right operand of a node over what was read.
pub open spec fn more_terms<V>(left: Expr<V>, input: Seq<Symbol<V>>) -> Option<
    (Expr<V>, Seq<Symbol<V>>),
>
    decreases input.len(), 3nat,
{
    if input.len() == 0 {
        Some((left, input))
    } else {
        match input.first() {
            Symbol::Operator(op) => if op.rank() == 1 {
                match read_product(input.drop_first()) {
                    Some((right, rest)) => if rest.len() < input.len() {
                        more_terms(Expr::Binary(op, Box::new(left), Box::new(right)), rest)
                    } else {
                        None
                    },
                    None => None,
                }
            } else {
                Some((left, input))
            },
            _ => Some((left, input)),
        }
    }
}

/// Reads a whole infix sequence from left to right, with precedence: the
/// tree of the expression, where the sequence is one.
pub open spec fn read_expression<V>(input: Seq<Symbol<V>>) -> Option<Expr<V>> {
    match read_sum(input) {
        Some((expr, rest)) => if rest.len() == 0 {
            Some(expr)
        } else {
            None
        },
        None => None,
    }
}

/// Whether `outcome` is an outcome of the reference evaluation of an infix
/// sequence: the sequence is read from left to right with precedence, and
/// the tree is evaluated directly.
pub open spec fn reference_evaluation<V>(
    arithmetic: spec_fn(Operator, V, V, V) -> bool,
    variables: Map<Seq<char>, V>,
    infix: Seq<Symbol<V>>,
    outcome: Result<V, Fault>,
) -> bool {
    match read_expression(infix) {
        Some(expr) => reference_outcome(arithmetic, variables, expr, outcome),
        None => outcome == Err::<V, Fault>(Fault::MalformedExpression),
    }
}

} // verus!
