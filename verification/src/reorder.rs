//! Reordering an infix token sequence into postfix form by operator
//! precedence.

use vstd::prelude::*;
use crate::token::{lemma_symbols_push, symbols, CalcError, Fault, Operator, Symbol, Token};

verus! {

/// What waits on the operator stack: an operator, or an open parenthesis.
#[derive(Clone, Copy, Debug, PartialEq, Eq, Structural)]
pub enum Pending {
    Operator(Operator),
    LeftParen,
}

/// The state of the reordering: the operator stack, its top last, and the
/// output written so far.
pub struct Yard<V> {
    pub stack: Seq<Pending>,
    pub output: Seq<Symbol<V>>,
}

/// The state with the given stack and output.
pub open spec fn yard<V>(stack: Seq<Pending>, output: Seq<Symbol<V>>) -> Yard<V> {
    Yard { stack, output }
}

/// Before an operator of strength `rank` is pushed, every operator on top of
/// the stack that binds at least as tightly moves to the output, the topmost
/// first. Equal strength moves too, which makes the operators associate to
/// the left.
pub open spec fn yield_to<V>(yard: Yard<V>, rank: nat) -> Yard<V>
    decreases yard.stack.len(),
{
    if yard.stack.len() > 0 {
        match yard.stack.last() {
            Pending::Operator(top) => if top.rank() >= rank {
                yield_to(
                    Yard {
                        stack: yard.stack.drop_last(),
                        output: yard.output.push(Symbol::Operator(top)),
                    },
                    rank,
                )
            } else {
                yard
            },
            Pending::LeftParen => yard,
        }
    } else {
        yard
    }
}

/// At a closing parenthesis the operators above the nearest open parenthesis
/// move to the output and that parenthesis is dropped. There is no result
/// where the stack holds no open parenthesis.
pub open spec fn close_group<V>(yard: Yard<V>) -> Option<Yard<V>>
    decreases yard.stack.len(),
{
    if yard.stack.len() > 0 {
        match yard.stack.last() {
            Pending::Operator(top) => close_group(
                Yard {
                    stack: yard.stack.drop_last(),
                    output: yard.output.push(Symbol::Operator(top)),
                },
            ),
            Pending::LeftParen => Some(Yard { stack: yard.stack.drop_last(), output: yard.output }),
        }
    } else {
        None
    }
}

/// At the end of the input the operators left on the stack move to the
/// output, the topmost first. There is no result where an open parenthesis
/// is left.
pub open spec fn drain<V>(yard: Yard<V>) -> Option<Seq<Symbol<V>>>
    decreases yard.stack.len(),
{
    if yard.stack.len() > 0 {
        match yard.stack.last() {
            Pending::Operator(top) => drain(
                Yard {
                    stack: yard.stack.drop_last(),
                    output: yard.output.push(Symbol::Operator(top)),
                },
            ),
            Pending::LeftParen => None,
        }
    } else {
        Some(yard.output)
    }
}

/// The state after one more symbol. An assignment sign has no place in an
/// expression.
pub open spec fn yard_step<V>(yard: Yard<V>, symbol: Symbol<V>) -> Option<Yard<V>> {
    match symbol {
        Symbol::Number(_) | Symbol::Variable(_) => Some(
            Yard { stack: yard.stack, output: yard.output.push(symbol) },
        ),
        Symbol::Operator(op) => {
            let yielded = yield_to(yard, op.rank());
            Some(Yard { stack: yielded.stack.push(Pending::Operator(op)), output: yielded.output })
        },
        Symbol::LeftParen => Some(
            Yard { stack: yard.stack.push(Pending::LeftParen), output: yard.output },
        ),
        Symbol::RightParen => close_group(yard),
        Symbol::Assign => None,
    }
}

/// The state after a sequence of symbols, left to right.
pub open spec fn yard_run<V>(yard: Yard<V>, input: Seq<Symbol<V>>) -> Option<Yard<V>>
    decreases input.len(),
{
    if input.len() == 0 {
        Some(yard)
    } else {
        match yard_step(yard, input.first()) {
            Some(next) => yard_run(next, input.drop_first()),
            None => None,
        }
    }
}

/// The postfix form of an infix sequence, where its parentheses match.
pub open spec fn postfix_of<V>(input: Seq<Symbol<V>>) -> Option<Seq<Symbol<V>>> {
    match yard_run(yard(Seq::empty(), Seq::empty()), input) {
        Some(yard) => drain(yard),
        None => None,
    }
}

/// Whether a symbol can stand in a postfix sequence: a number, a variable
/// or an operator.
pub open spec fn is_postfix_symbol<V>(symbol: Symbol<V>) -> bool {
    symbol is Number || symbol is Variable || symbol is Operator
}

/// Whether a sequence holds postfix symbols only.
pub open spec fn all_postfix<V>(sequence: Seq<Symbol<V>>) -> bool {
    forall|i: int| 0 <= i < sequence.len() ==> is_postfix_symbol(#[trigger] sequence[i])
}

proof fn lemma_yield_keeps_postfix<V>(start: Yard<V>, rank: nat)
    requires
        all_postfix(start.output),
    ensures
        all_postfix(yield_to(start, rank).output),
    decreases start.stack.len(),
{
    if start.stack.len() > 0 {
        match start.stack.last() {
            Pending::Operator(top) => {
                if top.rank() >= rank {
                    lemma_yield_keeps_postfix(
                        yard(start.stack.drop_last(), start.output.push(Symbol::Operator(top))),
                        rank,
                    );
                }
            },
            Pending::LeftParen => {},
        }
    }
}

proof fn lemma_close_keeps_postfix<V>(start: Yard<V>)
    requires
        all_postfix(start.output),
    ensures
        close_group(start) matches Some(closed) ==> all_postfix(closed.output),
    decreases start.stack.len(),
{
    if start.stack.len() > 0 {
        match start.stack.last() {
            Pending::Operator(top) => {
                lemma_close_keeps_postfix(
                    yard(start.stack.drop_last(), start.output.push(Symbol::Operator(top))),
                );
            },
            Pending::LeftParen => {},
        }
    }
}

proof fn lemma_drain_keeps_postfix<V>(start: Yard<V>)
    requires
        all_postfix(start.output),
    ensures
        drain(start) matches Some(output) ==> all_postfix(output),
    decreases start.stack.len(),
{
    if start.stack.len() > 0 {
        match start.stack.last() {
            Pending::Operator(top) => {
                lemma_drain_keeps_postfix(
                    yard(start.stack.drop_last(), start.output.push(Symbol::Operator(top))),
                );
            },
            Pending::LeftParen => {},
        }
    }
}

proof fn lemma_run_keeps_postfix<V>(start: Yard<V>, input: Seq<Symbol<V>>)
    requires
        all_postfix(start.output),
    ensures
        yard_run(start, input) matches Some(reached) ==> all_postfix(reached.output),
    decreases input.len(),
{
    if input.len() > 0 {
        match input.first() {
            Symbol::Operator(op) => {
                lemma_yield_keeps_postfix(start, op.rank());
            },
            Symbol::RightParen => {
                lemma_close_keeps_postfix(start);
            },
            _ => {},
        }
        match yard_step(start, input.first()) {
            Some(next) => {
                lemma_run_keeps_postfix(next, input.drop_first());
            },
            None => {},
        }
    }
}

/// A postfix form holds numbers, variables and operators, and no
/// parenthesis.
pub proof fn lemma_postfix_form_has_no_parentheses<V>(input: Seq<Symbol<V>>)
    ensures
        postfix_of(input) matches Some(postfix) ==> all_postfix(postfix),
{
    let start = yard(Seq::<Pending>::empty(), Seq::<Symbol<V>>::empty());
    lemma_run_keeps_postfix(start, input);
    match yard_run(start, input) {
        Some(reached) => {
            lemma_drain_keeps_postfix(reached);
        },
        None => {},
    }
}

/// Moves to the output the operators that an operator `op` releases.
fn release_for<V>(operators: &mut Vec<Pending>, output: &mut Vec<Token<V>>, op: Operator)
    ensures
        yard(final(operators)@, symbols(final(output)@)) == yield_to(
            yard(old(operators)@, symbols(old(output)@)),
            op.rank(),
        ),
{
    let ghost before = yard(operators@, symbols(output@));
    loop
        invariant
            yield_to(yard(operators@, symbols(output@)), op.rank()) == yield_to(before, op.rank()),
        ensures
            yard(operators@, symbols(output@)) == yield_to(before, op.rank()),
        decreases operators@.len(),
    {
        let len = operators.len();
        if len == 0 {
            break ;
        }
        match operators[len - 1] {
            Pending::Operator(top) => {
                if top.precedence() >= op.precedence() {
                    operators.pop();
                    proof {
                        lemma_symbols_push(output@, Token::Operator(top));
                    }
                    output.push(Token::Operator(top));
                } else {
                    break ;
                }
            },
            Pending::LeftParen => {
                break ;
            },
        }
    }
}

/// Moves to the output the operators that a closing parenthesis releases
/// and drops the open parenthesis below them. Returns whether there was
/// one; the stack is used up where there was none.
fn release_group<V>(operators: &mut Vec<Pending>, output: &mut Vec<Token<V>>) -> (matched: bool)
    ensures
        match close_group(yard(old(operators)@, symbols(old(output)@))) {
            Some(closed) => matched && yard(final(operators)@, symbols(final(output)@)) == closed,
            None => !matched,
        },
{
    let ghost before = yard(operators@, symbols(output@));
    loop
        invariant
            before == yard(old(operators)@, symbols(old(output)@)),
            close_group(yard(operators@, symbols(output@))) == close_group(before),
        decreases operators@.len(),
    {
        match operators.pop() {
            Some(Pending::Operator(top)) => {
                proof {
                    lemma_symbols_push(output@, Token::Operator(top));
                }
                output.push(Token::Operator(top));
            },
            Some(Pending::LeftParen) => {
                return true;
            },
            None => {
                return false;
            },
        }
    }
}

/// Moves to the output the operators left at the end of the input. Returns
/// whether all of them were operators.
fn release_all<V>(operators: Vec<Pending>, output: &mut Vec<Token<V>>) -> (clean: bool)
    ensures
        match drain(yard(operators@, symbols(old(output)@))) {
            Some(drained) => clean && symbols(final(output)@) == drained,
            None => !clean,
        },
{
    let mut stack = operators;
    loop
        invariant
            drain(yard(stack@, symbols(output@))) == drain(
                yard(operators@, symbols(old(output)@)),
            ),
        decreases stack@.len(),
    {
        match stack.pop() {
            Some(Pending::Operator(top)) => {
                proof {
                    lemma_symbols_push(output@, Token::Operator(top));
                }
                output.push(Token::Operator(top));
            },
            Some(Pending::LeftParen) => {
                return false;
            },
            None => {
                return true;
            },
        }
    }
}

/// Reorders an infix token sequence into postfix form.
///
/// Operands keep their order. An operator waits on a stack until an
/// operator that binds no tighter, a closing parenthesis or the end of the
/// input releases it. A parenthesis without its partner makes the
/// expression malformed.
pub fn shunting_yard<V>(tokens: Vec<Token<V>>) -> (r: Result<Vec<Token<V>>, CalcError>)
    requires
        !symbols(tokens@).contains(Symbol::Assign),
    ensures
        match postfix_of(symbols(tokens@)) {
            Some(postfix) => r matches Ok(output) && symbols(output@) == postfix,
            None => r matches Err(e) && e@ == Fault::MalformedExpression,
        },
{
    let ghost input = symbols(tokens@);
    let ghost mut at: int = 0;
    let mut output: Vec<Token<V>> = Vec::new();
    let mut operators: Vec<Pending> = Vec::new();
    proof {
        assert(input.skip(0) =~= input);
        assert(symbols(output@) =~= Seq::<Symbol<V>>::empty());
    }
    for token in it: tokens
        invariant
            it.seq() == tokens@,
            input == symbols(tokens@),
            !input.contains(Symbol::Assign),
            at == it.index(),
            0 <= at <= input.len(),
            postfix_of(input) == match yard_run(
                yard(operators@, symbols(output@)),
                input.skip(at),
            ) {
                Some(reached) => drain(reached),
                None => None,
            },
    {
        proof {
            assert(input.skip(at).drop_first() =~= input.skip(at + 1));
        }
        match token {
            Token::Number(_) | Token::Variable(_) => {
                proof {
                    lemma_symbols_push(output@, token);
                }
                output.push(token);
            },
            Token::Operator(op) => {
                release_for(&mut operators, &mut output, op);
                operators.push(Pending::Operator(op));
            },
            Token::LeftParen => {
                operators.push(Pending::LeftParen);
            },
            Token::RightParen => {
                if !release_group(&mut operators, &mut output) {
                    return Err(CalcError::MalformedExpression);
                }
            },
            Token::Assign => {
                return vstd::pervasive::unreached();
            },
        }
        proof {
            at = at + 1;
        }
    }
    if release_all(operators, &mut output) {
        Ok(output)
    } else {
        Err(CalcError::MalformedExpression)
    }
}

} // verus!
