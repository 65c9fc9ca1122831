//! Reordering the infix form of an expression gives its postfix form.

use vstd::prelude::*;
use crate::eval::Expr;
use crate::reorder::{
    close_group, drain, postfix_of, yard, yard_run, yard_step, yield_to, Pending, Yard,
};
use crate::token::Symbol;

verus! {

/// The operators of a stack as output symbols, the topmost first.
pub open spec fn released<V>(stack: Seq<Pending>) -> Seq<Symbol<V>>
    decreases stack.len(),
{
    if stack.len() == 0 {
        Seq::empty()
    } else {
        match stack.last() {
            Pending::Operator(op) => seq![Symbol::Operator(op)] + released(stack.drop_last()),
            Pending::LeftParen => released(stack.drop_last()),
        }
    }
}

/// Whether the stack holds only operators of strength `rank` or more.
pub open spec fn all_operators(stack: Seq<Pending>, rank: nat) -> bool {
    forall|i: int|
        0 <= i < stack.len() ==> match #[trigger] stack[i] {
            Pending::Operator(op) => op.rank() >= rank,
            Pending::LeftParen => false,
        }
}

/// Whether an operator of strength `rank` releases nothing from the stack.
pub open spec fn guarded(stack: Seq<Pending>, rank: nat) -> bool {
    stack.len() > 0 ==> match stack.last() {
        Pending::Operator(op) => op.rank() < rank,
        Pending::LeftParen => true,
    }
}

/// The operators that are still on the stack when the infix form of the
/// expression has been read: those on its right edge.
pub open spec fn waiting<V>(expr: Expr<V>) -> Seq<Pending>
    decreases expr,
{
    match expr {
        Expr::Binary(op, _, right) => seq![Pending::Operator(op)] + waiting(*right),
        _ => Seq::empty(),
    }
}

/// What has reached the output when the infix form of the expression has
/// been read.
pub open spec fn written<V>(expr: Expr<V>) -> Seq<Symbol<V>>
    decreases expr,
{
    match expr {
        Expr::Binary(_, left, right) => left.postfix() + written(*right),
        _ => expr.postfix(),
    }
}

/// The operators of two stacks, one on the other, are released from the
/// upper one first.
proof fn lemma_released_concat<V>(below: Seq<Pending>, above: Seq<Pending>)
    ensures
        released::<V>(below + above) == released::<V>(above) + released::<V>(below),
    decreases above.len(),
{
    if above.len() > 0 {
        assert((below + above).drop_last() =~= below + above.drop_last());
        lemma_released_concat::<V>(below, above.drop_last());
    }
}

/// The postfix form is what has been written, then what is waiting.
proof fn lemma_postfix_splits<V>(expr: Expr<V>)
    ensures
        expr.postfix() == written(expr) + released::<V>(waiting(expr)),
    decreases expr,
{
    match expr {
        Expr::Binary(op, _, right) => {
            let top = seq![Pending::Operator(op)];
            lemma_postfix_splits(*right);
            lemma_released_concat::<V>(top, waiting(*right));
            assert(released::<V>(top) =~= seq![Symbol::Operator(op)]) by {
                assert(released::<V>(top.drop_last()) =~= Seq::<Symbol<V>>::empty());
            }
            assert(expr.postfix() =~= written(expr) + released::<V>(waiting(expr)));
        },
        _ => {},
    }
}

/// The operators that wait after a well-formed expression bind at least as
/// tightly as the expression holds together.
proof fn lemma_waiting_operators<V>(expr: Expr<V>)
    requires
        expr.well_formed(),
    ensures
        all_operators(waiting(expr), expr.level()),
    decreases expr,
{
    match expr {
        Expr::Binary(_, _, right) => {
            lemma_waiting_operators(*right);
        },
        _ => {},
    }
}

/// An operator releases every operator above a guarded base that binds at
/// least as tightly, and stops at the base.
proof fn lemma_yield_releases<V>(
    base: Seq<Pending>,
    above: Seq<Pending>,
    output: Seq<Symbol<V>>,
    rank: nat,
)
    requires
        guarded(base, rank),
        all_operators(above, rank),
    ensures
        yield_to(yard(base + above, output), rank) == yard(base, output + released::<V>(above)),
    decreases above.len(),
{
    if above.len() > 0 {
        assert((base + above).drop_last() =~= base + above.drop_last());
        match above.last() {
            Pending::Operator(op) => {
                let rest = above.drop_last();
                lemma_yield_releases(base, rest, output.push(Symbol::Operator(op)), rank);
                assert(output.push(Symbol::Operator(op)) + released::<V>(rest) =~= output
                    + released::<V>(above));
            },
            Pending::LeftParen => {},
        }
    }
}

/// A closing parenthesis releases the operators above the open parenthesis
/// and drops it.
proof fn lemma_close_releases<V>(base: Seq<Pending>, above: Seq<Pending>, output: Seq<Symbol<V>>)
    requires
        all_operators(above, 0),
    ensures
        close_group(yard(base.push(Pending::LeftParen) + above, output)) == Some(
            yard(base, output + released::<V>(above)),
        ),
    decreases above.len(),
{
    let whole = base.push(Pending::LeftParen) + above;
    if above.len() == 0 {
        assert(whole.drop_last() =~= base);
    } else {
        assert(whole.drop_last() =~= base.push(Pending::LeftParen) + above.drop_last());
        match above.last() {
            Pending::Operator(op) => {
                let rest = above.drop_last();
                lemma_close_releases(base, rest, output.push(Symbol::Operator(op)));
                assert(output.push(Symbol::Operator(op)) + released::<V>(rest) =~= output
                    + released::<V>(above));
            },
            Pending::LeftParen => {},
        }
    }
}

/// The end of the input releases a stack of operators.
proof fn lemma_drain_releases<V>(stack: Seq<Pending>, output: Seq<Symbol<V>>)
    requires
        all_operators(stack, 0),
    ensures
        drain(yard(stack, output)) == Some(output + released::<V>(stack)),
    decreases stack.len(),
{
    if stack.len() > 0 {
        match stack.last() {
            Pending::Operator(op) => {
                lemma_drain_releases(stack.drop_last(), output.push(Symbol::Operator(op)));
            },
            Pending::LeftParen => {},
        }
    }
}

/// Reading two sequences one after the other is reading their
/// concatenation.
proof fn lemma_yard_run_concat<V>(start: Yard<V>, first: Seq<Symbol<V>>, second: Seq<Symbol<V>>)
    ensures
        yard_run(start, first + second) == match yard_run(start, first) {
            Some(middle) => yard_run(middle, second),
            None => None,
        },
    decreases first.len(),
{
    if first.len() > 0 {
        assert((first + second).drop_first() =~= first.drop_first() + second);
        match yard_step(start, first.first()) {
            Some(next) => {
                lemma_yard_run_concat(next, first.drop_first(), second);
            },
            None => {},
        }
    }
}

/// Reading a sequence of one symbol is one step.
proof fn lemma_yard_run_one<V>(start: Yard<V>, symbol: Symbol<V>)
    ensures
        yard_run(start, seq![symbol]) == yard_step(start, symbol),
{
    match yard_step(start, symbol) {
        Some(next) => {
            assert(yard_run(next, seq![symbol].drop_first()) == Some(next));
        },
        None => {},
    }
}

/// Reading the infix form of a well-formed expression over a guarded stack
/// leaves the stack with the operators of the right edge on top, and has
/// written the rest of the postfix form.
proof fn lemma_reads_expression<V>(expr: Expr<V>, stack: Seq<Pending>, output: Seq<Symbol<V>>)
    requires
        expr.well_formed(),
        guarded(stack, expr.level()),
    ensures
        yard_run(yard(stack, output), expr.infix()) == Some(
            yard(stack + waiting(expr), output + written(expr)),
        ),
    decreases expr,
{
    let start = yard(stack, output);
    match expr {
        Expr::Number(value) => {
            lemma_yard_run_one(start, Symbol::Number(value));
            assert(output + written(expr) =~= output.push(Symbol::Number(value)));
        },
        Expr::Variable(name) => {
            lemma_yard_run_one(start, Symbol::<V>::Variable(name));
            assert(output + written(expr) =~= output.push(Symbol::Variable(name)));
        },
        Expr::Group(inner) => {
            let open = seq![Symbol::<V>::LeftParen];
            let close = seq![Symbol::<V>::RightParen];
            let inside = yard(
                stack.push(Pending::LeftParen) + waiting(*inner),
                output + written(*inner),
            );
            lemma_yard_run_one(start, Symbol::<V>::LeftParen);
            lemma_reads_expression(*inner, stack.push(Pending::LeftParen), output);
            lemma_yard_run_concat(start, open, inner.infix());
            lemma_yard_run_concat(start, open + inner.infix(), close);
            lemma_yard_run_one(inside, Symbol::<V>::RightParen);
            lemma_waiting_operators(*inner);
            lemma_close_releases(stack, waiting(*inner), output + written(*inner));
            lemma_postfix_splits(*inner);
            assert(output + written(*inner) + released::<V>(waiting(*inner)) =~= output
                + inner.postfix());
        },
        Expr::Binary(op, left, right) => {
            let sign = seq![Symbol::<V>::Operator(op)];
            let after_left = yard(stack + waiting(*left), output + written(*left));
            lemma_reads_expression(*left, stack, output);
            lemma_waiting_operators(*left);
            lemma_yield_releases(stack, waiting(*left), output + written(*left), op.rank());
            lemma_postfix_splits(*left);
            assert(output + written(*left) + released::<V>(waiting(*left)) =~= output
                + left.postfix());
            lemma_yard_run_one(after_left, Symbol::<V>::Operator(op));
            lemma_reads_expression(
                *right,
                stack.push(Pending::Operator(op)),
                output + left.postfix(),
            );
            lemma_yard_run_concat(start, left.infix(), sign);
            lemma_yard_run_concat(start, left.infix() + sign, right.infix());
            assert(stack.push(Pending::Operator(op)) + waiting(*right) =~= stack + waiting(expr));
            assert(output + left.postfix() + written(*right) =~= output + written(expr));
        },
    }
}

/// Reordering the infix form of a well-formed expression gives its postfix
/// form.
pub proof fn lemma_reorder_gives_postfix<V>(expr: Expr<V>)
    requires
        expr.well_formed(),
    ensures
        postfix_of(expr.infix()) == Some(expr.postfix()),
{
    lemma_reads_expression(expr, Seq::empty(), Seq::empty());
    lemma_waiting_operators(expr);
    lemma_drain_releases(waiting(expr), written(expr));
    lemma_postfix_splits(expr);
}

} // verus!
