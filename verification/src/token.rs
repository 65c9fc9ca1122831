//! Tokens, operators and errors, each with its mathematical model.

use vstd::prelude::*;

verus! {

/// One of the four binary operators.
#[derive(Clone, Copy, Debug, PartialEq, Eq, Structural)]
pub enum Operator {
    Plus,
    Minus,
    Times,
    Divide,
}

impl Operator {
    /// Binding strength: `*` and `/` bind tighter than `+` and `-`.
    pub open spec fn rank(self) -> nat {
        match self {
            Operator::Plus | Operator::Minus => 1,
            Operator::Times | Operator::Divide => 2,
        }
    }

    /// The character that denotes the operator.
    pub open spec fn glyph(self) -> char {
        match self {
            Operator::Plus => '+',
            Operator::Minus => '-',
            Operator::Times => '*',
            Operator::Divide => '/',
        }
    }

    /// The operator that a character denotes, if any.
    pub open spec fn of_glyph(c: char) -> Option<Operator> {
        if c == '+' {
            Some(Operator::Plus)
        } else if c == '-' {
            Some(Operator::Minus)
        } else if c == '*' {
            Some(Operator::Times)
        } else if c == '/' {
            Some(Operator::Divide)
        } else {
            None
        }
    }

    pub fn precedence(self) -> (p: u8)
        ensures
            p == self.rank(),
    {
        match self {
            Operator::Plus | Operator::Minus => 1,
            Operator::Times | Operator::Divide => 2,
        }
    }

    pub fn as_char(self) -> (c: char)
        ensures
            c == self.glyph(),
    {
        match self {
            Operator::Plus => '+',
            Operator::Minus => '-',
            Operator::Times => '*',
            Operator::Divide => '/',
        }
    }

    pub fn from_char(c: char) -> (r: Option<Operator>)
        ensures
            r == Operator::of_glyph(c),
    {
        if c == '+' {
            Some(Operator::Plus)
        } else if c == '-' {
            Some(Operator::Minus)
        } else if c == '*' {
            Some(Operator::Times)
        } else if c == '/' {
            Some(Operator::Divide)
        } else {
            None
        }
    }
}

/// A lexical token. `V` is the type of numeric values.
#[derive(Clone, Debug, PartialEq)]
pub enum Token<V> {
    Number(V),
    Operator(Operator),
    LeftParen,
    RightParen,
    Variable(String),
    Assign,
}

/// The model of a [`Token`]: the same cases, with a variable's name as a
/// sequence of characters.
pub enum Symbol<V> {
    Number(V),
    Operator(Operator),
    LeftParen,
    RightParen,
    Variable(Seq<char>),
    Assign,
}

impl<V> View for Token<V> {
    type V = Symbol<V>;

    open spec fn view(&self) -> Symbol<V> {
        match *self {
            Token::Number(v) => Symbol::Number(v),
            Token::Operator(op) => Symbol::Operator(op),
            Token::LeftParen => Symbol::LeftParen,
            Token::RightParen => Symbol::RightParen,
            Token::Variable(name) => Symbol::Variable(name@),
            Token::Assign => Symbol::Assign,
        }
    }
}

/// The models of a sequence of tokens, in order.
pub open spec fn symbols<V>(tokens: Seq<Token<V>>) -> Seq<Symbol<V>> {
    tokens.map_values(|t: Token<V>| t@)
}

/// Appending a token appends its model.
pub proof fn lemma_symbols_push<V>(tokens: Seq<Token<V>>, token: Token<V>)
    ensures
        symbols(tokens.push(token)) == symbols(tokens).push(token@),
{
}

/// Why a line could not be evaluated.
#[derive(Clone, Debug, PartialEq, Eq)]
pub enum CalcError {
    /// The line holds a character that no token can contain.
    InvalidCharacter(char),
    /// The expression reads a variable that has no value.
    UndefinedVariable(String),
    /// The tokens do not form an expression.
    MalformedExpression,
}

/// The model of a [`CalcError`].
pub enum Fault {
    InvalidCharacter(char),
    UndefinedVariable(Seq<char>),
    MalformedExpression,
}

impl View for CalcError {
    type V = Fault;

    open spec fn view(&self) -> Fault {
        match *self {
            CalcError::InvalidCharacter(c) => Fault::InvalidCharacter(c),
            CalcError::UndefinedVariable(name) => Fault::UndefinedVariable(name@),
            CalcError::MalformedExpression => Fault::MalformedExpression,
        }
    }
}

} // verus!
