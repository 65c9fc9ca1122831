//! Splitting a line of text into tokens.

use vstd::prelude::*;
use crate::token::{lemma_symbols_push, symbols, CalcError, Fault, Operator, Symbol, Token};

verus! {

/// Characters that accumulate into a word: digits, `.` and ASCII letters.
pub open spec fn is_word_char(c: char) -> bool {
    ('0' <= c && c <= '9') || c == '.' || ('a' <= c && c <= 'z') || ('A' <= c && c <= 'Z')
}

/// Characters that end a word: an operator, a parenthesis, `=` or a space.
pub open spec fn is_delimiter(c: char) -> bool {
    Operator::of_glyph(c) is Some || c == '(' || c == ')' || c == '=' || c == ' '
}

/// A piece of a line before its words are told apart into numbers and names.
pub enum Lexeme {
    Word(Seq<char>),
    Operator(Operator),
    LeftParen,
    RightParen,
    Assign,
}

/// How many word characters the text starts with.
pub open spec fn word_len(text: Seq<char>) -> nat
    decreases text.len(),
{
    if text.len() > 0 && is_word_char(text[0]) {
        1 + word_len(text.drop_first())
    } else {
        0
    }
}

/// A text that starts with a word character starts with at least one, and
/// with no more than it holds.
pub proof fn lemma_word_len_bounds(text: Seq<char>)
    ensures
        word_len(text) <= text.len(),
        text.len() > 0 && is_word_char(text[0]) ==> word_len(text) >= 1,
        forall|k: int| 0 <= k < word_len(text) ==> is_word_char(#[trigger] text[k]),
        word_len(text) < text.len() ==> !is_word_char(text[word_len(text) as int]),
    decreases text.len(),
{
    if text.len() > 0 && is_word_char(text[0]) {
        let rest = text.drop_first();
        lemma_word_len_bounds(rest);
        assert forall|k: int| 0 <= k < word_len(text) implies is_word_char(#[trigger] text[k]) by {
            if k > 0 {
                assert(text[k] == rest[k - 1]);
            }
        }
    }
}

/// The lexeme that a delimiter other than the space stands for.
pub open spec fn delimiter_lexeme(c: char) -> Lexeme {
    if c == '(' {
        Lexeme::LeftParen
    } else if c == ')' {
        Lexeme::RightParen
    } else if c == '=' {
        Lexeme::Assign
    } else {
        Lexeme::Operator(Operator::of_glyph(c).unwrap())
    }
}

/// The lexemes of a text made of word characters and delimiters: each
/// maximal run of word characters is one word, each delimiter but the space
/// is a lexeme of its own, and spaces only separate.
pub open spec fn lexemes(text: Seq<char>) -> Seq<Lexeme>
    decreases text.len(),
{
    if text.len() == 0 {
        Seq::empty()
    } else if is_word_char(text[0]) {
        let n = word_len(text) as int;
        proof {
            lemma_word_len_bounds(text);
        }
        seq![Lexeme::Word(text.take(n))] + lexemes(text.skip(n))
    } else if text[0] == ' ' {
        lexemes(text.drop_first())
    } else {
        seq![delimiter_lexeme(text[0])] + lexemes(text.drop_first())
    }
}

/// Whether `i` is the position of the first character of `text` that is
/// neither a word character nor a delimiter.
pub open spec fn is_first_stray(text: Seq<char>, i: int) -> bool {
    &&& 0 <= i < text.len()
    &&& !is_word_char(text[i]) && !is_delimiter(text[i])
    &&& forall|j: int| 0 <= j < i ==> is_word_char(#[trigger] text[j]) || is_delimiter(text[j])
}

/// The position of the first stray character, where there is one.
pub open spec fn first_stray(text: Seq<char>) -> int {
    choose|i: int| is_first_stray(text, i)
}

/// The lexemes of a line, or the first character that no lexeme can hold.
pub open spec fn scan(text: Seq<char>) -> Result<Seq<Lexeme>, char> {
    if exists|i: int| is_first_stray(text, i) {
        Err(text[first_stray(text)])
    } else {
        Ok(lexemes(text))
    }
}

/// What the caller's reader of literals may return for a word: the relation
/// that its postcondition defines.
pub open spec fn reading_of<V, P: Fn(&str) -> Option<V>>(parse_number: P) -> spec_fn(
    Seq<char>,
    Option<V>,
) -> bool {
    |word: Seq<char>, value: Option<V>|
        exists|s: &str| s@ == word && #[trigger] parse_number.ensures((s,), value)
}

/// Whether `symbol` is a token for `lexeme`: a word is a number where the
/// reader gave a value for it and a variable of that name where it gave
/// none; every other lexeme has one token.
pub open spec fn reads_as<V>(
    reading: spec_fn(Seq<char>, Option<V>) -> bool,
    lexeme: Lexeme,
    symbol: Symbol<V>,
) -> bool {
    match lexeme {
        Lexeme::Word(word) => match symbol {
            Symbol::Number(value) => reading(word, Some(value)),
            Symbol::Variable(name) => name == word && reading(word, None),
            _ => false,
        },
        Lexeme::Operator(op) => symbol == Symbol::<V>::Operator(op),
        Lexeme::LeftParen => symbol == Symbol::<V>::LeftParen,
        Lexeme::RightParen => symbol == Symbol::<V>::RightParen,
        Lexeme::Assign => symbol == Symbol::<V>::Assign,
    }
}

/// Whether `symbols` are tokens for `lexemes`, one for one and in order.
pub open spec fn all_read_as<V>(
    reading: spec_fn(Seq<char>, Option<V>) -> bool,
    lexemes: Seq<Lexeme>,
    symbols: Seq<Symbol<V>>,
) -> bool {
    &&& symbols.len() == lexemes.len()
    &&& forall|i: int| 0 <= i < lexemes.len() ==> reads_as(reading, lexemes[i], #[trigger] symbols[i])
}

/// Whether a sequence of characters is a word: not empty, and made of word
/// characters.
pub open spec fn is_word(word: Seq<char>) -> bool {
    word.len() > 0 && forall|k: int| 0 <= k < word.len() ==> is_word_char(#[trigger] word[k])
}

/// Every word among the lexemes of a text is a word: no lexeme is empty.
pub proof fn lemma_lexemes_hold_words(text: Seq<char>)
    ensures
        forall|i: int|
            0 <= i < lexemes(text).len() ==> (#[trigger] lexemes(text)[i] matches Lexeme::Word(word)
                ==> is_word(word)),
    decreases text.len(),
{
    if text.len() > 0 {
        if is_word_char(text[0]) {
            lemma_word_len_bounds(text);
            lemma_lexemes_hold_words(text.skip(word_len(text) as int));
        } else {
            lemma_lexemes_hold_words(text.drop_first());
        }
    }
}

/// A text without `=` has no assignment among its lexemes.
pub proof fn lemma_assign_needs_its_sign(text: Seq<char>)
    requires
        !text.contains('='),
    ensures
        !lexemes(text).contains(Lexeme::Assign),
    decreases text.len(),
{
    if text.len() > 0 {
        let step: int = if is_word_char(text[0]) {
            lemma_word_len_bounds(text);
            word_len(text) as int
        } else {
            1
        };
        lemma_assign_needs_its_sign(text.skip(step));
    }
}

/// The name of every variable among the tokens of a line is a word.
pub proof fn lemma_names_are_words<V>(
    reading: spec_fn(Seq<char>, Option<V>) -> bool,
    text: Seq<char>,
    tokens: Seq<Symbol<V>>,
)
    requires
        all_read_as(reading, lexemes(text), tokens),
    ensures
        forall|i: int|
            0 <= i < tokens.len() ==> (#[trigger] tokens[i] matches Symbol::Variable(name)
                ==> is_word(name)),
{
    lemma_lexemes_hold_words(text);
}

/// A text whose first `n` characters are word characters, and are followed
/// by none, starts with a word of length `n`.
proof fn lemma_word_len_is(text: Seq<char>, n: int)
    requires
        0 <= n <= text.len(),
        forall|k: int| 0 <= k < n ==> is_word_char(#[trigger] text[k]),
        n < text.len() ==> !is_word_char(text[n]),
    ensures
        word_len(text) == n,
    decreases n,
{
    if n > 0 {
        lemma_word_len_is(text.drop_first(), n - 1);
    }
}

/// The lexemes of a text from the start of a word on: the word, then the
/// lexemes of what follows it.
proof fn lemma_lexemes_after_word(text: Seq<char>, start: int, end: int)
    requires
        0 <= start < end <= text.len(),
        forall|k: int| start <= k < end ==> is_word_char(#[trigger] text[k]),
        end < text.len() ==> !is_word_char(text[end]),
    ensures
        lexemes(text.skip(start)) == seq![Lexeme::Word(text.subrange(start, end))] + lexemes(
            text.skip(end),
        ),
{
    let tail = text.skip(start);
    lemma_word_len_is(tail, end - start);
    assert(tail.take(end - start) =~= text.subrange(start, end));
    assert(tail.skip(end - start) =~= text.skip(end));
}

/// The lexemes of a text from a delimiter on.
proof fn lemma_lexemes_after_delimiter(text: Seq<char>, at: int)
    requires
        0 <= at < text.len(),
        is_delimiter(text[at]),
    ensures
        lexemes(text.skip(at)) == if text[at] == ' ' {
            lexemes(text.skip(at + 1))
        } else {
            seq![delimiter_lexeme(text[at])] + lexemes(text.skip(at + 1))
        },
{
    assert(text.skip(at).drop_first() =~= text.skip(at + 1));
}

/// Turns the pending word, if there is one, into a token.
fn flush_word<V, P: Fn(&str) -> Option<V>>(
    buffer: String,
    tokens: &mut Vec<Token<V>>,
    parse_number: &P,
    Ghost(done): Ghost<Seq<Lexeme>>,
) -> (next: Ghost<Seq<Lexeme>>)
    requires
        buffer@.len() > 0 ==> is_word(buffer@),
        forall|s: &str| is_word(s@) ==> parse_number.requires((s,)),
        all_read_as(reading_of(*parse_number), done, symbols(old(tokens)@)),
    ensures
        next@ == if buffer@.len() == 0 {
            done
        } else {
            done.push(Lexeme::Word(buffer@))
        },
        all_read_as(reading_of(*parse_number), next@, symbols(final(tokens)@)),
{
    if buffer.as_str().is_empty() {
        return Ghost(done);
    }
    let token = match parse_number(buffer.as_str()) {
        Some(value) => Token::Number(value),
        None => Token::Variable(buffer),
    };
    proof {
        lemma_symbols_push(tokens@, token);
    }
    tokens.push(token);
    Ghost(done.push(Lexeme::Word(buffer@)))
}

/// Splits a line into tokens.
///
/// Digits, `.` and letters accumulate into words; an operator, a
/// parenthesis, `=` or a space ends the pending word. A word is a number
/// where `parse_number` reads it as one, and a variable name otherwise. Any
/// other character is rejected, the first one being reported.
/// `parse_number` is only ever asked about words.
pub fn tokenize<V, P: Fn(&str) -> Option<V>>(expression: &str, parse_number: P) -> (r: Result<
    Vec<Token<V>>,
    CalcError,
>)
    requires
        forall|s: &str| is_word(s@) ==> parse_number.requires((s,)),
    ensures
        match scan(expression@) {
            Ok(lexemes) => r matches Ok(tokens) && all_read_as(
                reading_of(parse_number),
                lexemes,
                symbols(tokens@),
            ),
            Err(c) => r matches Err(e) && e@ == Fault::InvalidCharacter(c),
        },
{
    let ghost text = expression@;
    let mut tokens: Vec<Token<V>> = Vec::new();
    let mut buffer = String::new();
    let ghost mut start: int = 0;
    let ghost mut at: int = 0;
    let ghost mut done: Seq<Lexeme> = Seq::empty();
    proof {
        assert(text.skip(0) =~= text);
    }
    for c in it: expression.chars()
        invariant
            text == expression@,
            it.seq() == text,
            at == it.index(),
            0 <= start <= at <= text.len(),
            buffer@ == text.subrange(start, at),
            forall|k: int| start <= k < at ==> is_word_char(#[trigger] text[k]),
            forall|j: int| 0 <= j < at ==> is_word_char(#[trigger] text[j]) || is_delimiter(text[j]),
            lexemes(text) == done + lexemes(text.skip(start)),
            all_read_as(reading_of(parse_number), done, symbols(tokens@)),
            forall|s: &str| is_word(s@) ==> parse_number.requires((s,)),
    {
        if (c >= '0' && c <= '9') || c == '.' || (c >= 'a' && c <= 'z') || (c >= 'A' && c <= 'Z') {
            buffer.push(c);
            proof {
                at = at + 1;
            }
        } else {
            let delimiter = if c == '(' {
                Some(Token::LeftParen)
            } else if c == ')' {
                Some(Token::RightParen)
            } else if c == '=' {
                Some(Token::Assign)
            } else if c == ' ' {
                None
            } else {
                match Operator::from_char(c) {
                    Some(op) => Some(Token::Operator(op)),
                    None => {
                        proof {
                            assert(is_first_stray(text, at));
                        }
                        return Err(CalcError::InvalidCharacter(c));
                    },
                }
            };
            proof {
                if start < at {
                    lemma_lexemes_after_word(text, start, at);
                }
                lemma_lexemes_after_delimiter(text, at);
            }
            let flushed = flush_word(buffer, &mut tokens, &parse_number, Ghost(done));
            buffer = String::new();
            proof {
                done = flushed@;
            }
            match delimiter {
                Some(token) => {
                    proof {
                        lemma_symbols_push(tokens@, token);
                        done = done.push(delimiter_lexeme(c));
                    }
                    tokens.push(token);
                },
                None => {},
            }
            proof {
                at = at + 1;
                start = at;
            }
        }
    }
    proof {
        if start < at {
            lemma_lexemes_after_word(text, start, at);
        }
    }
    flush_word(buffer, &mut tokens, &parse_number, Ghost(done));
    Ok(tokens)
}

} // verus!
