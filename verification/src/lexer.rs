//! The token source: turns raw text into an ordered sequence of tokens.
//! Numeric literals are read through the numeric type's own literal
//! capability, so the scanner itself never fixes a number representation.

use crate::computer::Num;
use vstd::prelude::*;

verus! {

/// The operator and punctuation symbols the token source recognizes.
#[derive(Debug, Copy, Clone, PartialEq, Eq, Structural)]
pub enum Operator {
    Plus,
    Minus,
    Star,
    Slash,
    Caret,
    LParen,
    RParen,
    Equals,
    Exclamation,
}

/// One lexical unit: a numeric literal, an operator or punctuation
/// symbol, or an identifier (a variable or function name).
#[derive(Debug, Clone, PartialEq)]
pub enum Token<T> {
    Number(T),
    Operator(Operator),
    Identifier(String),
}

/// The mathematical image of a token: identifier text as a sequence of
/// characters.
pub enum TokenV<T> {
    Number(T),
    Operator(Operator),
    Identifier(Seq<char>),
}

impl<T> View for Token<T> {
    type V = TokenV<T>;

    open spec fn view(&self) -> TokenV<T> {
        match self {
            Token::Number(n) => TokenV::Number(*n),
            Token::Operator(op) => TokenV::Operator(*op),
            Token::Identifier(s) => TokenV::Identifier(s@),
        }
    }
}

/// A lexical fault: a character outside the alphabet, or a span of digits
/// and dots that is no literal of the numeric type.
#[derive(Debug, Clone, PartialEq)]
pub enum LexerError {
    InvalidCharacter(char),
    InvalidNumber(String),
}

/// The mathematical image of a lexical fault.
pub enum LexerErrorV {
    InvalidCharacter(char),
    InvalidNumber(Seq<char>),
}

impl View for LexerError {
    type V = LexerErrorV;

    open spec fn view(&self) -> LexerErrorV {
        match self {
            LexerError::InvalidCharacter(c) => LexerErrorV::InvalidCharacter(*c),
            LexerError::InvalidNumber(s) => LexerErrorV::InvalidNumber(s@),
        }
    }
}

/// A decimal digit.
pub open spec fn is_digit_char(c: char) -> bool {
    48 <= c as u32 && c as u32 <= 57
}

/// A character that may stand in a numeric literal: a digit or a dot.
pub open spec fn is_num_char(c: char) -> bool {
    is_digit_char(c) || c == '.'
}

/// A letter, the alphabet of identifiers.
pub open spec fn is_ident_char(c: char) -> bool {
    (65 <= c as u32 && c as u32 <= 90) || (97 <= c as u32 && c as u32 <= 122)
}

/// The blanks that separate tokens: space, tab, line feed, carriage
/// return.
pub open spec fn is_blank_char(c: char) -> bool {
    c as u32 == 32 || c as u32 == 9 || c as u32 == 10 || c as u32 == 13
}

/// The operator or punctuation symbol a character stands for, if any.
pub open spec fn op_of_char(c: char) -> Option<Operator> {
    if c == '+' {
        Some(Operator::Plus)
    } else if c == '-' {
        Some(Operator::Minus)
    } else if c == '*' {
        Some(Operator::Star)
    } else if c == '/' {
        Some(Operator::Slash)
    } else if c == '^' {
        Some(Operator::Caret)
    } else if c == '(' {
        Some(Operator::LParen)
    } else if c == ')' {
        Some(Operator::RParen)
    } else if c == '=' {
        Some(Operator::Equals)
    } else if c == '!' {
        Some(Operator::Exclamation)
    } else {
        None
    }
}

/// The first position at or after `pos` whose character is no part of a
/// numeric literal; the length, if every character from `pos` on is.
pub open spec fn num_end(s: Seq<char>, pos: int) -> int
    decreases s.len() - pos,
{
    if pos < 0 || pos >= s.len() || !is_num_char(s[pos]) {
        pos
    } else {
        num_end(s, pos + 1)
    }
}

/// The first position at or after `pos` whose character is no letter.
pub open spec fn ident_end(s: Seq<char>, pos: int) -> int
    decreases s.len() - pos,
{
    if pos < 0 || pos >= s.len() || !is_ident_char(s[pos]) {
        pos
    } else {
        ident_end(s, pos + 1)
    }
}

pub proof fn lemma_num_end_bounds(s: Seq<char>, pos: int)
    requires
        0 <= pos <= s.len(),
    ensures
        pos <= num_end(s, pos) <= s.len(),
    decreases s.len() - pos,
{
    if pos < s.len() && is_num_char(s[pos]) {
        lemma_num_end_bounds(s, pos + 1);
    }
}

pub proof fn lemma_num_end_all(s: Seq<char>, pos: int)
    requires
        0 <= pos <= s.len(),
        forall|j: int| pos <= j < s.len() ==> is_num_char(#[trigger] s[j]),
    ensures
        num_end(s, pos) == s.len(),
    decreases s.len() - pos,
{
    if pos < s.len() {
        lemma_num_end_all(s, pos + 1);
    }
}

pub proof fn lemma_ident_end_bounds(s: Seq<char>, pos: int)
    requires
        0 <= pos <= s.len(),
    ensures
        pos <= ident_end(s, pos) <= s.len(),
    decreases s.len() - pos,
{
    if pos < s.len() && is_ident_char(s[pos]) {
        lemma_ident_end_bounds(s, pos + 1);
    }
}

/// The token sequence of the text from `pos` on, or the first lexical
/// fault in it.
pub open spec fn spec_tokenize_from<T: Num>(s: Seq<char>, pos: int) -> Result<
    Seq<TokenV<T>>,
    LexerErrorV,
>
    decreases s.len() - pos,
{
    if pos < 0 || pos >= s.len() {
        Ok(Seq::empty())
    } else {
        let c = s[pos];
        if is_blank_char(c) {
            spec_tokenize_from(s, pos + 1)
        } else if op_of_char(c) is Some {
            match spec_tokenize_from::<T>(s, pos + 1) {
                Ok(rest) => Ok(seq![TokenV::Operator(op_of_char(c).unwrap())] + rest),
                Err(e) => Err(e),
            }
        } else if is_num_char(c) {
            let end = {
                proof {
                    lemma_num_end_bounds(s, pos + 1);
                }
                num_end(s, pos + 1)
            };
            let text = s.subrange(pos, end);
            match T::from_literal_spec(text) {
                Some(n) => match spec_tokenize_from::<T>(s, end) {
                    Ok(rest) => Ok(seq![TokenV::Number(n)] + rest),
                    Err(e) => Err(e),
                },
                None => Err(LexerErrorV::InvalidNumber(text)),
            }
        } else if is_ident_char(c) {
            let end = {
                proof {
                    lemma_ident_end_bounds(s, pos + 1);
                }
                ident_end(s, pos + 1)
            };
            let text = s.subrange(pos, end);
            match spec_tokenize_from::<T>(s, end) {
                Ok(rest) => Ok(seq![TokenV::Identifier(text)] + rest),
                Err(e) => Err(e),
            }
        } else {
            Err(LexerErrorV::InvalidCharacter(c))
        }
    }
}

/// The token sequence of a whole text, or its first lexical fault.
pub open spec fn spec_tokenize<T: Num>(s: Seq<char>) -> Result<Seq<TokenV<T>>, LexerErrorV> {
    spec_tokenize_from(s, 0)
}

/// The mathematical image of a token vector.
pub open spec fn toks_view<T>(toks: Seq<Token<T>>) -> Seq<TokenV<T>> {
    toks.map_values(|t: Token<T>| t@)
}

/// The mathematical image of what `tokenize` returned.
pub open spec fn lex_res_view<T>(r: Result<Vec<Token<T>>, LexerError>) -> Result<
    Seq<TokenV<T>>,
    LexerErrorV,
> {
    match r {
        Ok(v) => Ok(toks_view(v@)),
        Err(e) => Err(e@),
    }
}

/// Prefixing a token sequence onto the outcome of scanning a rest.
pub open spec fn prepend_toks<T>(
    pre: Seq<TokenV<T>>,
    r: Result<Seq<TokenV<T>>, LexerErrorV>,
) -> Result<Seq<TokenV<T>>, LexerErrorV> {
    match r {
        Ok(rest) => Ok(pre + rest),
        Err(e) => Err(e),
    }
}

fn exec_op_of_char(c: char) -> (r: Option<Operator>)
    ensures
        r == op_of_char(c),
{
    if c == '+' {
        Some(Operator::Plus)
    } else if c == '-' {
        Some(Operator::Minus)
    } else if c == '*' {
        Some(Operator::Star)
    } else if c == '/' {
        Some(Operator::Slash)
    } else if c == '^' {
        Some(Operator::Caret)
    } else if c == '(' {
        Some(Operator::LParen)
    } else if c == ')' {
        Some(Operator::RParen)
    } else if c == '=' {
        Some(Operator::Equals)
    } else if c == '!' {
        Some(Operator::Exclamation)
    } else {
        None
    }
}

fn exec_is_blank(c: char) -> (r: bool)
    ensures
        r == is_blank_char(c),
{
    let u = c as u32;
    u == 32 || u == 9 || u == 10 || u == 13
}

fn exec_is_num_char(c: char) -> (r: bool)
    ensures
        r == is_num_char(c),
{
    let u = c as u32;
    (48 <= u && u <= 57) || c == '.'
}

fn exec_is_ident_char(c: char) -> (r: bool)
    ensures
        r == is_ident_char(c),
{
    let u = c as u32;
    (65 <= u && u <= 90) || (97 <= u && u <= 122)
}

/// Scans the text left to right into tokens: numeric literals, operator
/// and punctuation symbols, and identifiers, with blanks skipped between
/// tokens.  Fails on the first character outside that alphabet, and on a
/// digit-and-dot span that the numeric type does not accept as a literal.
pub fn tokenize<T: Num>(input: &str) -> (r: Result<Vec<Token<T>>, LexerError>)
    ensures
        lex_res_view(r) == spec_tokenize::<T>(input@),
{
    let n = input.unicode_len();
    let mut acc: Vec<Token<T>> = Vec::new();
    let mut i: usize = 0;
    while i < n
        invariant
            i <= n,
            n == input@.len(),
            spec_tokenize::<T>(input@) == prepend_toks(
                toks_view(acc@),
                spec_tokenize_from::<T>(input@, i as int),
            ),
        decreases n - i,
    {
        let c = input.get_char(i);
        if exec_is_blank(c) {
            i = i + 1;
        } else if let Some(op) = exec_op_of_char(c) {
            let ghost acc0 = acc@;
            acc.push(Token::Operator(op));
            i = i + 1;
            proof {
                assert(forall|rest: Seq<TokenV<T>>|
                    toks_view(acc0) + (seq![TokenV::Operator(op)] + rest) =~= toks_view(acc@)
                        + rest);
            }
        } else if exec_is_num_char(c) {
            let mut j: usize = i + 1;
            while j < n && exec_is_num_char(input.get_char(j))
                invariant
                    i < j <= n,
                    n == input@.len(),
                    num_end(input@, i + 1) == num_end(input@, j as int),
                decreases n - j,
            {
                j = j + 1;
            }
            let text = input.substring_char(i, j);
            match T::from_literal(text) {
                Some(num) => {
                    let ghost acc0 = acc@;
                    acc.push(Token::Number(num));
                    proof {
                        assert(forall|rest: Seq<TokenV<T>>|
                            toks_view(acc0) + (seq![TokenV::Number(num)] + rest) =~= toks_view(acc@)
                                + rest);
                    }
                    i = j;
                },
                None => {
                    return Err(LexerError::InvalidNumber(String::from_str(text)));
                },
            }
        } else if exec_is_ident_char(c) {
            let mut j: usize = i + 1;
            while j < n && exec_is_ident_char(input.get_char(j))
                invariant
                    i < j <= n,
                    n == input@.len(),
                    ident_end(input@, i + 1) == ident_end(input@, j as int),
                decreases n - j,
            {
                j = j + 1;
            }
            let text = input.substring_char(i, j);
            let ghost acc0 = acc@;
            acc.push(Token::Identifier(String::from_str(text)));
            proof {
                assert(forall|rest: Seq<TokenV<T>>|
                    toks_view(acc0) + (seq![TokenV::Identifier(text@)] + rest) =~= toks_view(acc@)
                        + rest);
            }
            i = j;
        } else {
            return Err(LexerError::InvalidCharacter(c));
        }
    }
    proof {
        assert(toks_view(acc@) + Seq::<TokenV<T>>::empty() =~= toks_view(acc@));
    }
    Ok(acc)
}

} // verus!
