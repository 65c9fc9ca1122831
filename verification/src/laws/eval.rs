//! Evaluating the postfix form of an expression evaluates its tree.

use vstd::prelude::*;
use crate::eval::{computes, operands, rpn_run, rpn_step, rpn_tree, Expr};
use crate::token::{Fault, Operator, Symbol};

verus! {

/// Evaluating two sequences one after the other is evaluating their
/// concatenation.
proof fn lemma_rpn_run_concat<V>(
    stack: Seq<Expr<V>>,
    first: Seq<Symbol<V>>,
    second: Seq<Symbol<V>>,
    defined: Set<Seq<char>>,
)
    ensures
        rpn_run(stack, first + second, defined) == match rpn_run(stack, first, defined) {
            Ok(middle) => rpn_run(middle, second, defined),
            Err(fault) => Err(fault),
        },
    decreases first.len(),
{
    if first.len() > 0 {
        assert((first + second).drop_first() =~= first.drop_first() + second);
        match rpn_step(stack, first.first(), defined) {
            Ok(next) => {
                lemma_rpn_run_concat(next, first.drop_first(), second, defined);
            },
            Err(_) => {},
        }
    }
}

/// Evaluating a sequence of one symbol is one step.
proof fn lemma_rpn_run_one<V>(stack: Seq<Expr<V>>, symbol: Symbol<V>, defined: Set<Seq<char>>)
    ensures
        rpn_run(stack, seq![symbol], defined) == rpn_step(stack, symbol, defined),
{
    match rpn_step(stack, symbol, defined) {
        Ok(next) => {
            assert(rpn_run(next, seq![symbol].drop_first(), defined) == Ok::<_, Fault>(next));
        },
        Err(_) => {},
    }
}

/// Evaluating the postfix form of an expression pushes its tree, or stops at
/// its first variable without a value.
proof fn lemma_postfix_builds<V>(expr: Expr<V>, stack: Seq<Expr<V>>, defined: Set<Seq<char>>)
    ensures
        rpn_run(stack, expr.postfix(), defined) == match expr.first_undefined(defined) {
            Some(name) => Err(Fault::UndefinedVariable(name)),
            None => Ok(stack.push(expr.plain())),
        },
    decreases expr,
{
    match expr {
        Expr::Number(value) => {
            lemma_rpn_run_one(stack, Symbol::Number(value), defined);
        },
        Expr::Variable(name) => {
            lemma_rpn_run_one(stack, Symbol::<V>::Variable(name), defined);
        },
        Expr::Group(inner) => {
            lemma_postfix_builds(*inner, stack, defined);
        },
        Expr::Binary(op, left, right) => {
            let sign = seq![Symbol::<V>::Operator(op)];
            lemma_postfix_builds(*left, stack, defined);
            lemma_rpn_run_concat(stack, left.postfix(), right.postfix(), defined);
            lemma_rpn_run_concat(stack, left.postfix() + right.postfix(), sign, defined);
            if left.first_undefined(defined) is None {
                let one = stack.push(left.plain());
                lemma_postfix_builds(*right, one, defined);
                if right.first_undefined(defined) is None {
                    let two = one.push(right.plain());
                    lemma_rpn_run_one(two, Symbol::<V>::Operator(op), defined);
                    assert(two.take(two.len() - 2) =~= stack);
                }
            }
        },
    }
}

/// The postfix form of an expression denotes its tree without the groups,
/// or fails at its first variable without a value.
pub proof fn lemma_postfix_denotes_tree<V>(expr: Expr<V>, defined: Set<Seq<char>>)
    ensures
        rpn_tree(expr.postfix(), defined) == match expr.first_undefined(defined) {
            Some(name) => Err(Fault::UndefinedVariable(name)),
            None => Ok(expr.plain()),
        },
{
    lemma_postfix_builds(expr, Seq::empty(), defined);
}

/// The postfix forms of the trees of a stack, bottom first, one after the
/// other.
pub open spec fn stack_postfix<V>(stack: Seq<Expr<V>>) -> Seq<Symbol<V>>
    decreases stack.len(),
{
    if stack.len() == 0 {
        Seq::empty()
    } else {
        stack_postfix(stack.drop_last()) + stack.last().postfix()
    }
}

/// Whether every tree of a stack is free of groups and of variables
/// without a value.
pub open spec fn stack_is_sound<V>(stack: Seq<Expr<V>>, defined: Set<Seq<char>>) -> bool {
    forall|i: int|
        0 <= i < stack.len() ==> (#[trigger] stack[i]).plain() == stack[i]
            && stack[i].first_undefined(defined) is None
}

/// One step keeps the stack sound and extends its postfix form by the
/// symbol.
proof fn lemma_step_extends_postfix<V>(
    stack: Seq<Expr<V>>,
    symbol: Symbol<V>,
    defined: Set<Seq<char>>,
)
    requires
        stack_is_sound(stack, defined),
    ensures
        rpn_step(stack, symbol, defined) matches Ok(next) ==> stack_is_sound(next, defined)
            && stack_postfix(next) == stack_postfix(stack).push(symbol),
{
    match rpn_step(stack, symbol, defined) {
        Ok(next) => {
            match symbol {
                Symbol::Operator(_) => {
                    let base = stack.take(stack.len() - 2);
                    let left = stack[stack.len() - 2];
                    assert(next.drop_last() =~= base);
                    assert(stack.drop_last().drop_last() =~= base);
                    assert(stack_postfix(stack.drop_last()) == stack_postfix(base)
                        + left.postfix());
                },
                _ => {
                    assert(next.drop_last() =~= stack);
                },
            }
        },
        Err(_) => {},
    }
}

/// A run keeps the stack sound and extends its postfix form by the
/// sequence.
proof fn lemma_run_extends_postfix<V>(
    stack: Seq<Expr<V>>,
    postfix: Seq<Symbol<V>>,
    defined: Set<Seq<char>>,
)
    requires
        stack_is_sound(stack, defined),
    ensures
        rpn_run(stack, postfix, defined) matches Ok(reached) ==> stack_is_sound(reached, defined)
            && stack_postfix(reached) == stack_postfix(stack) + postfix,
    decreases postfix.len(),
{
    if postfix.len() > 0 {
        lemma_step_extends_postfix(stack, postfix.first(), defined);
        match rpn_step(stack, postfix.first(), defined) {
            Ok(next) => {
                lemma_run_extends_postfix(next, postfix.drop_first(), defined);
            },
            Err(_) => {},
        }
    }
}

/// The tree that a postfix sequence denotes has that sequence as its
/// postfix form, has no groups, and reads no variable without a value.
pub proof fn lemma_tree_has_postfix<V>(postfix: Seq<Symbol<V>>, defined: Set<Seq<char>>)
    ensures
        rpn_tree(postfix, defined) matches Ok(expr) ==> expr.postfix() == postfix && expr.plain()
            == expr && expr.first_undefined(defined) is None,
{
    let nothing = Seq::<Expr<V>>::empty();
    lemma_run_extends_postfix(nothing, postfix, defined);
    match rpn_run(nothing, postfix, defined) {
        Ok(reached) => {
            if reached.len() == 1 {
                assert(reached.drop_last() =~= nothing);
            }
        },
        Err(_) => {},
    }
}

/// Groups do not change what an expression computes.
pub proof fn lemma_groups_keep_values<V>(
    arithmetic: spec_fn(Operator, V, V, V) -> bool,
    variables: Map<Seq<char>, V>,
    expr: Expr<V>,
    value: V,
)
    ensures
        computes(arithmetic, variables, expr.plain(), value) == computes(
            arithmetic,
            variables,
            expr,
            value,
        ),
    decreases expr,
{
    match expr {
        Expr::Group(inner) => {
            lemma_groups_keep_values(arithmetic, variables, *inner, value);
        },
        Expr::Binary(op, left, right) => {
            if computes(arithmetic, variables, expr, value) {
                let (a, b) = choose|a: V, b: V|
                    #![trigger operands(a, b)]
                    operands(a, b) && computes(arithmetic, variables, *left, a) && computes(
                        arithmetic,
                        variables,
                        *right,
                        b,
                    ) && arithmetic(op, a, b, value);
                lemma_groups_keep_values(arithmetic, variables, *left, a);
                lemma_groups_keep_values(arithmetic, variables, *right, b);
            }
            if computes(arithmetic, variables, expr.plain(), value) {
                let (a, b) = choose|a: V, b: V|
                    #![trigger operands(a, b)]
                    operands(a, b) && computes(arithmetic, variables, left.plain(), a) && computes(
                        arithmetic,
                        variables,
                        right.plain(),
                        b,
                    ) && arithmetic(op, a, b, value);
                lemma_groups_keep_values(arithmetic, variables, *left, a);
                lemma_groups_keep_values(arithmetic, variables, *right, b);
            }
        },
        _ => {},
    }
}

/// Whether the arithmetic gives one result for given operands.
pub open spec fn deterministic<V>(arithmetic: spec_fn(Operator, V, V, V) -> bool) -> bool {
    forall|op: Operator, a: V, b: V, first: V, second: V|
        #![trigger arithmetic(op, a, b, first), arithmetic(op, a, b, second)]
        arithmetic(op, a, b, first) && arithmetic(op, a, b, second) ==> first == second
}

/// With a deterministic arithmetic an expression has one value at most.
pub proof fn lemma_value_is_unique<V>(
    arithmetic: spec_fn(Operator, V, V, V) -> bool,
    variables: Map<Seq<char>, V>,
    expr: Expr<V>,
    first: V,
    second: V,
)
    requires
        deterministic(arithmetic),
        computes(arithmetic, variables, expr, first),
        computes(arithmetic, variables, expr, second),
    ensures
        first == second,
    decreases expr,
{
    match expr {
        Expr::Group(inner) => {
            lemma_value_is_unique(arithmetic, variables, *inner, first, second);
        },
        Expr::Binary(op, left, right) => {
            let (a1, b1) = choose|a: V, b: V|
                #![trigger operands(a, b)]
                operands(a, b) && computes(arithmetic, variables, *left, a) && computes(
                    arithmetic,
                    variables,
                    *right,
                    b,
                ) && arithmetic(op, a, b, first);
            let (a2, b2) = choose|a: V, b: V|
                #![trigger operands(a, b)]
                operands(a, b) && computes(arithmetic, variables, *left, a) && computes(
                    arithmetic,
                    variables,
                    *right,
                    b,
                ) && arithmetic(op, a, b, second);
            lemma_value_is_unique(arithmetic, variables, *left, a1, a2);
            lemma_value_is_unique(arithmetic, variables, *right, b1, b2);
        },
        _ => {},
    }
}

} // verus!
