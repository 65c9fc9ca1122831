//! Evaluating a postfix token sequence on a stack.

use vstd::prelude::*;
use crate::env::Environment;
use crate::token::{symbols, CalcError, Fault, Operator, Symbol, Token};

verus! {

/// An expression as a tree.
pub enum Expr<V> {
    /// A literal value.
    Number(V),
    /// A variable, by name.
    Variable(Seq<char>),
    /// An expression in parentheses.
    Group(Box<Expr<V>>),
    /// An operator between a left and a right operand.
    Binary(Operator, Box<Expr<V>>, Box<Expr<V>>),
}

/// What applying an operator to two operands may give: the relation that the
/// postcondition of the caller's arithmetic defines.
pub open spec fn arithmetic_of<V, A: Fn(Operator, V, V) -> V>(apply: A) -> spec_fn(
    Operator,
    V,
    V,
    V,
) -> bool {
    |op: Operator, left: V, right: V, result: V| apply.ensures((op, left, right), result)
}

/// Names a pair of operand values. It holds of every pair: it is there for
/// the proofs to point at the pair they mean.
pub open spec fn operands<V>(a: V, b: V) -> bool {
    true
}

/// Whether `value` is a value of `expr`: a literal has its own value, a
/// variable the one that the environment gives it, a group that of its
/// content, and an operator node whatever the arithmetic may give for a
/// value of its left and a value of its right operand.
pub open spec fn computes<V>(
    arithmetic: spec_fn(Operator, V, V, V) -> bool,
    variables: Map<Seq<char>, V>,
    expr: Expr<V>,
    value: V,
) -> bool
    decreases expr,
{
    match expr {
        Expr::Number(literal) => value == literal,
        Expr::Variable(name) => variables.contains_key(name) && value == variables[name],
        Expr::Group(inner) => computes(arithmetic, variables, *inner, value),
        Expr::Binary(op, left, right) => exists|a: V, b: V|
            #![trigger operands(a, b)]
            operands(a, b) && computes(arithmetic, variables, *left, a) && computes(
                arithmetic,
                variables,
                *right,
                b,
            ) && arithmetic(op, a, b, value),
    }
}

/// A value of an operator node, from values of its operands.
pub proof fn lemma_computes_binary<V>(
    arithmetic: spec_fn(Operator, V, V, V) -> bool,
    variables: Map<Seq<char>, V>,
    op: Operator,
    left: Expr<V>,
    right: Expr<V>,
    a: V,
    b: V,
    value: V,
)
    requires
        computes(arithmetic, variables, left, a),
        computes(arithmetic, variables, right, b),
        arithmetic(op, a, b, value),
    ensures
        computes(arithmetic, variables, Expr::Binary(op, Box::new(left), Box::new(right)), value),
{
    assert(operands(a, b));
}

/// The stack of operand trees after one more postfix symbol. A number or a
/// defined variable is pushed; an operator replaces the two topmost trees,
/// the upper one being its right operand. Anything else has no place in a
/// postfix sequence.
pub open spec fn rpn_step<V>(
    stack: Seq<Expr<V>>,
    symbol: Symbol<V>,
    defined: Set<Seq<char>>,
) -> Result<Seq<Expr<V>>, Fault> {
    match symbol {
        Symbol::Number(value) => Ok(stack.push(Expr::Number(value))),
        Symbol::Variable(name) => if defined.contains(name) {
            Ok(stack.push(Expr::Variable(name)))
        } else {
            Err(Fault::UndefinedVariable(name))
        },
        Symbol::Operator(op) => if stack.len() >= 2 {
            Ok(
                stack.take(stack.len() - 2).push(
                    Expr::Binary(
                        op,
                        Box::new(stack[stack.len() - 2]),
                        Box::new(stack[stack.len() - 1]),
                    ),
                ),
            )
        } else {
            Err(Fault::MalformedExpression)
        },
        _ => Err(Fault::MalformedExpression),
    }
}

/// The stack after a sequence of postfix symbols, or the first fault.
pub open spec fn rpn_run<V>(
    stack: Seq<Expr<V>>,
    postfix: Seq<Symbol<V>>,
    defined: Set<Seq<char>>,
) -> Result<Seq<Expr<V>>, Fault>
    decreases postfix.len(),
{
    if postfix.len() == 0 {
        Ok(stack)
    } else {
        match rpn_step(stack, postfix.first(), defined) {
            Ok(next) => rpn_run(next, postfix.drop_first(), defined),
            Err(fault) => Err(fault),
        }
    }
}

/// The tree that a postfix sequence denotes: what is on the stack at the
/// end, where that is exactly one tree.
pub open spec fn rpn_tree<V>(postfix: Seq<Symbol<V>>, defined: Set<Seq<char>>) -> Result<
    Expr<V>,
    Fault,
> {
    match rpn_run(Seq::empty(), postfix, defined) {
        Ok(stack) => if stack.len() == 1 {
            Ok(stack[0])
        } else {
            Err(Fault::MalformedExpression)
        },
        Err(fault) => Err(fault),
    }
}

/// Whether `outcome` is an outcome of evaluating `postfix`: the fault of
/// the sequence where it has one, and else a value of its tree.
pub open spec fn evaluates_to<V>(
    arithmetic: spec_fn(Operator, V, V, V) -> bool,
    variables: Map<Seq<char>, V>,
    postfix: Seq<Symbol<V>>,
    outcome: Result<V, Fault>,
) -> bool {
    match rpn_tree(postfix, variables.dom()) {
        Ok(expr) => outcome matches Ok(value) && computes(arithmetic, variables, expr, value),
        Err(fault) => outcome == Err::<V, Fault>(fault),
    }
}

/// The model of an outcome.
pub open spec fn outcome_view<V>(outcome: Result<V, CalcError>) -> Result<V, Fault> {
    match outcome {
        Ok(value) => Ok(value),
        Err(error) => Err(error@),
    }
}

/// Evaluates a postfix token sequence.
///
/// A number pushes its value and a variable the value that `variables`
/// holds for it. An operator pops its right operand, then its left one, and
/// pushes what `apply` makes of them. The result is the one value left at
/// the end. A variable without a value is reported by name; an operator
/// short of operands, a token that is neither operand nor operator, and a
/// stack that does not end with exactly one value make the expression
/// malformed.
pub fn evaluate_rpn<V: Copy, A: Fn(Operator, V, V) -> V>(
    tokens: Vec<Token<V>>,
    variables: &Environment<V>,
    apply: A,
) -> (r: Result<V, CalcError>)
    requires
        forall|op: Operator, left: V, right: V| apply.requires((op, left, right)),
    ensures
        evaluates_to(arithmetic_of(apply), variables@, symbols(tokens@), outcome_view(r)),
{
    let ghost postfix = symbols(tokens@);
    let ghost arithmetic = arithmetic_of(apply);
    let ghost mut trees: Seq<Expr<V>> = Seq::empty();
    let mut stack: Vec<V> = Vec::new();
    let n = tokens.len();
    let mut i: usize = 0;
    proof {
        assert(postfix.skip(0) =~= postfix);
    }
    while i < n
        invariant
            n == tokens.len(),
            0 <= i <= n,
            postfix == symbols(tokens@),
            arithmetic == arithmetic_of(apply),
            forall|op: Operator, left: V, right: V| apply.requires((op, left, right)),
            rpn_run(trees, postfix.skip(i as int), variables@.dom()) == rpn_run(
                Seq::empty(),
                postfix,
                variables@.dom(),
            ),
            stack@.len() == trees.len(),
            forall|k: int|
                0 <= k < trees.len() ==> computes(
                    arithmetic,
                    variables@,
                    #[trigger] trees[k],
                    stack@[k],
                ),
        decreases n - i,
    {
        proof {
            assert(postfix.skip(i as int).drop_first() =~= postfix.skip(i + 1));
        }
        match &tokens[i] {
            Token::Number(value) => {
                stack.push(*value);
                proof {
                    trees = trees.push(Expr::Number(*value));
                }
            },
            Token::Variable(name) => {
                match variables.lookup(name.as_str()) {
                    Some(value) => {
                        stack.push(value);
                        proof {
                            trees = trees.push(Expr::Variable(name@));
                        }
                    },
                    None => {
                        return Err(CalcError::UndefinedVariable(name.clone()));
                    },
                }
            },
            Token::Operator(op) => {
                if stack.len() < 2 {
                    return Err(CalcError::MalformedExpression);
                }
                let right = stack.pop().unwrap();
                let left = stack.pop().unwrap();
                let result = apply(*op, left, right);
                stack.push(result);
                proof {
                    let l = trees[trees.len() - 2];
                    let r = trees[trees.len() - 1];
                    let node = Expr::Binary(*op, Box::new(l), Box::new(r));
                    lemma_computes_binary(arithmetic, variables@, *op, l, r, left, right, result);
                    trees = trees.take(trees.len() - 2).push(node);
                }
            },
            _ => {
                return Err(CalcError::MalformedExpression);
            },
        }
        i = i + 1;
    }
    if stack.len() == 1 {
        Ok(stack[0])
    } else {
        Err(CalcError::MalformedExpression)
    }
}

} // verus!
