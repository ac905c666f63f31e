//! The parser: consumes the token sequence once, fully, and produces a
//! single abstract syntax tree or a syntax error.  The grammar, from the
//! loosest binding to the tightest:
//!
//! 1. assignment: `identifier '=' expression` (right-associative, so
//!    chained assignment `a = b = 3` is legal and assigns right to left);
//! 2. additive: left-associative chains of `+` and `-`;
//! 3. multiplicative: left-associative chains of `*` and `/`;
//! 4. unary: a leading `-` (or `+`, a no-op) binding looser than power,
//!    so `-2^2` reads as `-(2^2)`;
//! 5. power: right-associative `^`, so `2^3^2` reads as `2^(3^2)`;
//! 6. postfix: one or more `!`, each wrapping the result in a factorial;
//! 7. primary: a literal, an identifier, a function call `name(expr)`,
//!    or a parenthesized expression.
//!
//! Every parsing function is held to a specification-level parser, so
//! what `parse` returns is pinned down exactly, token sequence by token
//! sequence.

use crate::lexer::{Operator, Token, TokenV};
use vstd::prelude::*;

verus! {

/// The four binary arithmetic operators an AST node can hold.
#[derive(Debug, Copy, Clone, PartialEq, Eq, Structural)]
pub enum BinOperator {
    Plus,
    Minus,
    Star,
    Slash,
}

/// The function names the grammar knows.
#[derive(Debug, Copy, Clone, PartialEq, Eq, Structural)]
pub enum Function {
    Sqrt,
    Sin,
    Cos,
    Tan,
    Log,
    Abs,
}

/// The abstract syntax tree of one complete expression.  Every node owns
/// its sub-expressions exclusively; a value of this type is always a
/// syntactically complete expression.
#[derive(Debug, PartialEq)]
pub enum Expr<T> {
    Constant(T),
    Identifier(String),
    Neg(Box<Expr<T>>),
    BinOp(BinOperator, Box<Expr<T>>, Box<Expr<T>>),
    Pow(Box<Expr<T>>, Box<Expr<T>>),
    Factorial(Box<Expr<T>>),
    Function(Function, Box<Expr<T>>),
    Assignment(String, Box<Expr<T>>),
}

/// The mathematical image of an AST: identifier text as a sequence of
/// characters.
pub enum SpecExpr<T> {
    Constant(T),
    Identifier(Seq<char>),
    Neg(Box<SpecExpr<T>>),
    BinOp(BinOperator, Box<SpecExpr<T>>, Box<SpecExpr<T>>),
    Pow(Box<SpecExpr<T>>, Box<SpecExpr<T>>),
    Factorial(Box<SpecExpr<T>>),
    Function(Function, Box<SpecExpr<T>>),
    Assignment(Seq<char>, Box<SpecExpr<T>>),
}

/// The mathematical image of an AST value.
pub open spec fn expr_view<T>(e: Expr<T>) -> SpecExpr<T>
    decreases e,
{
    match e {
        Expr::Constant(n) => SpecExpr::Constant(n),
        Expr::Identifier(s) => SpecExpr::Identifier(s@),
        Expr::Neg(a) => SpecExpr::Neg(Box::new(expr_view(*a))),
        Expr::BinOp(op, l, r) => SpecExpr::BinOp(
            op,
            Box::new(expr_view(*l)),
            Box::new(expr_view(*r)),
        ),
        Expr::Pow(l, r) => SpecExpr::Pow(Box::new(expr_view(*l)), Box::new(expr_view(*r))),
        Expr::Factorial(a) => SpecExpr::Factorial(Box::new(expr_view(*a))),
        Expr::Function(f, a) => SpecExpr::Function(f, Box::new(expr_view(*a))),
        Expr::Assignment(s, a) => SpecExpr::Assignment(s@, Box::new(expr_view(*a))),
    }
}

/// A syntax fault, carrying the offending token or name when there is
/// one.
#[derive(Debug, Clone, PartialEq)]
pub enum ParserError<T> {
    /// A token that no rule of the grammar admits at its position.
    UnexpectedToken(Token<T>),
    /// The tokens ended where an operand was still owed.
    UnexpectedEnd,
    /// An opening parenthesis without its closing one.
    UnmatchedParen,
    /// A call of a function name the grammar does not know.
    UnknownFunction(String),
    /// A complete expression followed by tokens that were never consumed.
    TrailingToken(Token<T>),
}

/// The mathematical image of a syntax fault.
pub enum ParserErrorV<T> {
    UnexpectedToken(TokenV<T>),
    UnexpectedEnd,
    UnmatchedParen,
    UnknownFunction(Seq<char>),
    TrailingToken(TokenV<T>),
}

impl<T> View for ParserError<T> {
    type V = ParserErrorV<T>;

    open spec fn view(&self) -> ParserErrorV<T> {
        match self {
            ParserError::UnexpectedToken(t) => ParserErrorV::UnexpectedToken(t@),
            ParserError::UnexpectedEnd => ParserErrorV::UnexpectedEnd,
            ParserError::UnmatchedParen => ParserErrorV::UnmatchedParen,
            ParserError::UnknownFunction(s) => ParserErrorV::UnknownFunction(s@),
            ParserError::TrailingToken(t) => ParserErrorV::TrailingToken(t@),
        }
    }
}

/// The function a name denotes, if the grammar knows it.
pub open spec fn func_of(name: Seq<char>) -> Option<Function> {
    if name == "sqrt"@ {
        Some(Function::Sqrt)
    } else if name == "sin"@ {
        Some(Function::Sin)
    } else if name == "cos"@ {
        Some(Function::Cos)
    } else if name == "tan"@ {
        Some(Function::Tan)
    } else if name == "log"@ {
        Some(Function::Log)
    } else if name == "abs"@ {
        Some(Function::Abs)
    } else {
        None
    }
}

/// The additive operator a token stands for, if any.
pub open spec fn add_op_of<T>(t: TokenV<T>) -> Option<BinOperator> {
    match t {
        TokenV::Operator(Operator::Plus) => Some(BinOperator::Plus),
        TokenV::Operator(Operator::Minus) => Some(BinOperator::Minus),
        _ => None,
    }
}

/// The multiplicative operator a token stands for, if any.
pub open spec fn mul_op_of<T>(t: TokenV<T>) -> Option<BinOperator> {
    match t {
        TokenV::Operator(Operator::Star) => Some(BinOperator::Star),
        TokenV::Operator(Operator::Slash) => Some(BinOperator::Slash),
        _ => None,
    }
}

/// What one parsing level returns: a sub-expression and the position
/// just after it, or the syntax fault.
pub type PRes<T> = Result<(SpecExpr<T>, int), ParserErrorV<T>>;

/// The assignment level: `identifier '=' expression`, else additive.
pub open spec fn spec_parse_expr<T>(toks: Seq<TokenV<T>>, pos: int) -> PRes<T>
    decreases toks.len() - pos, 12int,
{
    let assign_name: Option<Seq<char>> = if 0 <= pos && pos + 1 < toks.len() {
        match (toks[pos], toks[pos + 1]) {
            (TokenV::Identifier(name), TokenV::Operator(Operator::Equals)) => Some(name),
            _ => None,
        }
    } else {
        None
    };
    match assign_name {
        Some(name) => match spec_parse_expr(toks, pos + 2) {
            Ok((rhs, p)) => Ok((SpecExpr::Assignment(name, Box::new(rhs)), p)),
            Err(e) => Err(e),
        },
        None => spec_parse_additive(toks, pos),
    }
}

/// The additive level: a left-associative chain of `+` and `-`.
pub open spec fn spec_parse_additive<T>(toks: Seq<TokenV<T>>, pos: int) -> PRes<T>
    decreases toks.len() - pos, 10int,
{
    match spec_parse_mul(toks, pos) {
        Ok((lhs, p)) => {
            if pos < p <= toks.len() {
                spec_add_rest(toks, lhs, p)
            } else {
                // every level consumes at least one token, so this guard,
                // which keeps the recursion well-founded, never fires
                Err(ParserErrorV::UnexpectedEnd)
            }
        },
        Err(e) => Err(e),
    }
}

/// The rest of an additive chain, folded onto what is parsed so far.
pub open spec fn spec_add_rest<T>(toks: Seq<TokenV<T>>, lhs: SpecExpr<T>, pos: int) -> PRes<T>
    decreases toks.len() - pos, 9int,
{
    if 0 <= pos < toks.len() && add_op_of(toks[pos]) is Some {
        let op = add_op_of(toks[pos]).unwrap();
        match spec_parse_mul(toks, pos + 1) {
            Ok((rhs, p2)) => {
                if pos < p2 <= toks.len() {
                    spec_add_rest(
                        toks,
                        SpecExpr::BinOp(op, Box::new(lhs), Box::new(rhs)),
                        p2,
                    )
                } else {
                    Err(ParserErrorV::UnexpectedEnd)
                }
            },
            Err(e) => Err(e),
        }
    } else {
        Ok((lhs, pos))
    }
}

/// The multiplicative level: a left-associative chain of `*` and `/`.
pub open spec fn spec_parse_mul<T>(toks: Seq<TokenV<T>>, pos: int) -> PRes<T>
    decreases toks.len() - pos, 8int,
{
    match spec_parse_unary(toks, pos) {
        Ok((lhs, p)) => {
            if pos < p <= toks.len() {
                spec_mul_rest(toks, lhs, p)
            } else {
                Err(ParserErrorV::UnexpectedEnd)
            }
        },
        Err(e) => Err(e),
    }
}

/// The rest of a multiplicative chain, folded onto what is parsed so
/// far.
pub open spec fn spec_mul_rest<T>(toks: Seq<TokenV<T>>, lhs: SpecExpr<T>, pos: int) -> PRes<T>
    decreases toks.len() - pos, 7int,
{
    if 0 <= pos < toks.len() && mul_op_of(toks[pos]) is Some {
        let op = mul_op_of(toks[pos]).unwrap();
        match spec_parse_unary(toks, pos + 1) {
            Ok((rhs, p2)) => {
                if pos < p2 <= toks.len() {
                    spec_mul_rest(
                        toks,
                        SpecExpr::BinOp(op, Box::new(lhs), Box::new(rhs)),
                        p2,
                    )
                } else {
                    Err(ParserErrorV::UnexpectedEnd)
                }
            },
            Err(e) => Err(e),
        }
    } else {
        Ok((lhs, pos))
    }
}

/// The unary level: a leading `-` negates, a leading `+` is a no-op;
/// both bind looser than power, so `-2^2` is `-(2^2)`.
pub open spec fn spec_parse_unary<T>(toks: Seq<TokenV<T>>, pos: int) -> PRes<T>
    decreases toks.len() - pos, 6int,
{
    if 0 <= pos < toks.len() && toks[pos] == TokenV::<T>::Operator(Operator::Minus) {
        match spec_parse_unary(toks, pos + 1) {
            Ok((e, p)) => Ok((SpecExpr::Neg(Box::new(e)), p)),
            Err(e) => Err(e),
        }
    } else if 0 <= pos < toks.len() && toks[pos] == TokenV::<T>::Operator(Operator::Plus) {
        spec_parse_unary(toks, pos + 1)
    } else {
        spec_parse_power(toks, pos)
    }
}

/// The power level: right-associative `^`, whose exponent is a unary
/// term, so `2^3^2` is `2^(3^2)` and `2^-3` is legal.
pub open spec fn spec_parse_power<T>(toks: Seq<TokenV<T>>, pos: int) -> PRes<T>
    decreases toks.len() - pos, 5int,
{
    match spec_parse_postfix(toks, pos) {
        Ok((base, p)) => {
            if pos < p <= toks.len() {
                if p < toks.len() && toks[p] == TokenV::<T>::Operator(Operator::Caret) {
                    match spec_parse_unary(toks, p + 1) {
                        Ok((exponent, p2)) => Ok(
                            (SpecExpr::Pow(Box::new(base), Box::new(exponent)), p2),
                        ),
                        Err(e) => Err(e),
                    }
                } else {
                    Ok((base, p))
                }
            } else {
                Err(ParserErrorV::UnexpectedEnd)
            }
        },
        Err(e) => Err(e),
    }
}

/// The postfix level: a primary followed by any number of `!`, each
/// wrapping the previous result in a factorial.
pub open spec fn spec_parse_postfix<T>(toks: Seq<TokenV<T>>, pos: int) -> PRes<T>
    decreases toks.len() - pos, 3int,
{
    match spec_parse_primary(toks, pos) {
        Ok((e, p)) => {
            if pos < p <= toks.len() {
                spec_postfix_rest(toks, e, p)
            } else {
                Err(ParserErrorV::UnexpectedEnd)
            }
        },
        Err(e) => Err(e),
    }
}

/// The rest of a postfix chain of `!`.
pub open spec fn spec_postfix_rest<T>(toks: Seq<TokenV<T>>, e: SpecExpr<T>, pos: int) -> PRes<T>
    decreases toks.len() - pos, 2int,
{
    if 0 <= pos < toks.len() && toks[pos] == TokenV::<T>::Operator(Operator::Exclamation) {
        spec_postfix_rest(toks, SpecExpr::Factorial(Box::new(e)), pos + 1)
    } else {
        Ok((e, pos))
    }
}

/// The primary level: a literal, an identifier, a function call, or a
/// parenthesized expression.
pub open spec fn spec_parse_primary<T>(toks: Seq<TokenV<T>>, pos: int) -> PRes<T>
    decreases toks.len() - pos, 1int,
{
    if pos < 0 || pos >= toks.len() {
        Err(ParserErrorV::UnexpectedEnd)
    } else {
        match toks[pos] {
            TokenV::Number(n) => Ok((SpecExpr::Constant(n), pos + 1)),
            TokenV::Identifier(name) => {
                if pos + 1 < toks.len() && toks[pos + 1] == TokenV::<T>::Operator(
                    Operator::LParen,
                ) {
                    match func_of(name) {
                        None => Err(ParserErrorV::UnknownFunction(name)),
                        Some(f) => match spec_parse_expr(toks, pos + 2) {
                            Ok((arg, p2)) => {
                                if 0 <= p2 < toks.len() && toks[p2] == TokenV::<T>::Operator(
                                    Operator::RParen,
                                ) {
                                    Ok((SpecExpr::Function(f, Box::new(arg)), p2 + 1))
                                } else {
                                    Err(ParserErrorV::UnmatchedParen)
                                }
                            },
                            Err(e) => Err(e),
                        },
                    }
                } else {
                    Ok((SpecExpr::Identifier(name), pos + 1))
                }
            },
            TokenV::Operator(op) => {
                if op == Operator::LParen {
                    match spec_parse_expr(toks, pos + 1) {
                        Ok((e, p2)) => {
                            if 0 <= p2 < toks.len() && toks[p2] == TokenV::<T>::Operator(
                                Operator::RParen,
                            ) {
                                Ok((e, p2 + 1))
                            } else {
                                Err(ParserErrorV::UnmatchedParen)
                            }
                        },
                        Err(e) => Err(e),
                    }
                } else {
                    Err(ParserErrorV::UnexpectedToken(TokenV::Operator(op)))
                }
            },
        }
    }
}

/// What `parse` returns for a token sequence: the tree of the one
/// complete expression the tokens form, or the first syntax fault; a
/// complete parse that leaves tokens behind is the trailing-token fault,
/// never a silent truncation.
pub open spec fn spec_parse<T>(toks: Seq<TokenV<T>>) -> Result<SpecExpr<T>, ParserErrorV<T>> {
    match spec_parse_expr(toks, 0) {
        Ok((e, p)) => {
            if p == toks.len() {
                Ok(e)
            } else if 0 <= p < toks.len() {
                Err(ParserErrorV::TrailingToken(toks[p]))
            } else {
                Err(ParserErrorV::UnexpectedEnd)
            }
        },
        Err(e) => Err(e),
    }
}

/// The mathematical image of one parsing level's return.
pub open spec fn pres_view<T>(r: Result<(Expr<T>, usize), ParserError<T>>) -> PRes<T> {
    match r {
        Ok((e, p)) => Ok((expr_view(e), p as int)),
        Err(e) => Err(e@),
    }
}

/// The mathematical image of what `parse` returned.
pub open spec fn parse_res_view<T>(r: Result<Expr<T>, ParserError<T>>) -> Result<
    SpecExpr<T>,
    ParserErrorV<T>,
> {
    match r {
        Ok(e) => Ok(expr_view(e)),
        Err(e) => Err(e@),
    }
}

/// A copy of a token with the same image.
fn clone_token<T: Copy>(t: &Token<T>) -> (r: Token<T>)
    ensures
        r@ == t@,
{
    match t {
        Token::Number(n) => Token::Number(*n),
        Token::Operator(op) => Token::Operator(*op),
        Token::Identifier(s) => Token::Identifier(s.clone()),
    }
}

fn exec_func_of(name: &String) -> (r: Option<Function>)
    ensures
        r == func_of(name@),
{
    if *name == String::from_str("sqrt") {
        Some(Function::Sqrt)
    } else if *name == String::from_str("sin") {
        Some(Function::Sin)
    } else if *name == String::from_str("cos") {
        Some(Function::Cos)
    } else if *name == String::from_str("tan") {
        Some(Function::Tan)
    } else if *name == String::from_str("log") {
        Some(Function::Log)
    } else if *name == String::from_str("abs") {
        Some(Function::Abs)
    } else {
        None
    }
}

fn parse_expr<T: Copy>(toks: &Vec<Token<T>>, pos: usize) -> (r: Result<
    (Expr<T>, usize),
    ParserError<T>,
>)
    ensures
        pres_view(r) == spec_parse_expr(crate::lexer::toks_view(toks@), pos as int),
        r matches Ok((e, p)) ==> pos < p <= toks@.len(),
    decreases toks@.len() - pos, 12int,
{
    if pos < toks.len() && pos + 1 < toks.len() {
        let is_assign = match (&toks[pos], &toks[pos + 1]) {
            (Token::Identifier(_), Token::Operator(Operator::Equals)) => true,
            _ => false,
        };
        if is_assign {
            let name = match &toks[pos] {
                Token::Identifier(name) => name.clone(),
                _ => String::new(),
            };
            return match parse_expr(toks, pos + 2) {
                Ok((rhs, p)) => Ok((Expr::Assignment(name, Box::new(rhs)), p)),
                Err(e) => Err(e),
            };
        }
    }
    parse_additive(toks, pos)
}

fn parse_additive<T: Copy>(toks: &Vec<Token<T>>, pos: usize) -> (r: Result<
    (Expr<T>, usize),
    ParserError<T>,
>)
    ensures
        pres_view(r) == spec_parse_additive(crate::lexer::toks_view(toks@), pos as int),
        r matches Ok((e, p)) ==> pos < p <= toks@.len(),
    decreases toks@.len() - pos, 10int,
{
    let ghost tv = crate::lexer::toks_view(toks@);
    let (mut lhs, mut p) = match parse_mul(toks, pos) {
        Ok(ok) => ok,
        Err(e) => {
            return Err(e);
        },
    };
    loop
        invariant
            pos < p <= toks@.len(),
            tv == crate::lexer::toks_view(toks@),
            spec_parse_additive(tv, pos as int) == spec_add_rest(tv, expr_view(lhs), p as int),
        decreases toks@.len() - p,
    {
        let op = if p < toks.len() {
            match &toks[p] {
                Token::Operator(Operator::Plus) => Some(BinOperator::Plus),
                Token::Operator(Operator::Minus) => Some(BinOperator::Minus),
                _ => None,
            }
        } else {
            None
        };
        match op {
            Some(op) => {
                match parse_mul(toks, p + 1) {
                    Ok((rhs, p2)) => {
                        lhs = Expr::BinOp(op, Box::new(lhs), Box::new(rhs));
                        p = p2;
                    },
                    Err(e) => {
                        return Err(e);
                    },
                }
            },
            None => {
                return Ok((lhs, p));
            },
        }
    }
}

fn parse_mul<T: Copy>(toks: &Vec<Token<T>>, pos: usize) -> (r: Result<
    (Expr<T>, usize),
    ParserError<T>,
>)
    ensures
        pres_view(r) == spec_parse_mul(crate::lexer::toks_view(toks@), pos as int),
        r matches Ok((e, p)) ==> pos < p <= toks@.len(),
    decreases toks@.len() - pos, 8int,
{
    let ghost tv = crate::lexer::toks_view(toks@);
    let (mut lhs, mut p) = match parse_unary(toks, pos) {
        Ok(ok) => ok,
        Err(e) => {
            return Err(e);
        },
    };
    loop
        invariant
            pos < p <= toks@.len(),
            tv == crate::lexer::toks_view(toks@),
            spec_parse_mul(tv, pos as int) == spec_mul_rest(tv, expr_view(lhs), p as int),
        decreases toks@.len() - p,
    {
        let op = if p < toks.len() {
            match &toks[p] {
                Token::Operator(Operator::Star) => Some(BinOperator::Star),
                Token::Operator(Operator::Slash) => Some(BinOperator::Slash),
                _ => None,
            }
        } else {
            None
        };
        match op {
            Some(op) => {
                match parse_unary(toks, p + 1) {
                    Ok((rhs, p2)) => {
                        lhs = Expr::BinOp(op, Box::new(lhs), Box::new(rhs));
                        p = p2;
                    },
                    Err(e) => {
                        return Err(e);
                    },
                }
            },
            None => {
                return Ok((lhs, p));
            },
        }
    }
}

fn parse_unary<T: Copy>(toks: &Vec<Token<T>>, pos: usize) -> (r: Result<
    (Expr<T>, usize),
    ParserError<T>,
>)
    ensures
        pres_view(r) == spec_parse_unary(crate::lexer::toks_view(toks@), pos as int),
        r matches Ok((e, p)) ==> pos < p <= toks@.len(),
    decreases toks@.len() - pos, 6int,
{
    if pos < toks.len() && matches!(&toks[pos], Token::Operator(Operator::Minus)) {
        match parse_unary(toks, pos + 1) {
            Ok((e, p)) => Ok((Expr::Neg(Box::new(e)), p)),
            Err(e) => Err(e),
        }
    } else if pos < toks.len() && matches!(&toks[pos], Token::Operator(Operator::Plus)) {
        parse_unary(toks, pos + 1)
    } else {
        parse_power(toks, pos)
    }
}

fn parse_power<T: Copy>(toks: &Vec<Token<T>>, pos: usize) -> (r: Result<
    (Expr<T>, usize),
    ParserError<T>,
>)
    ensures
        pres_view(r) == spec_parse_power(crate::lexer::toks_view(toks@), pos as int),
        r matches Ok((e, p)) ==> pos < p <= toks@.len(),
    decreases toks@.len() - pos, 5int,
{
    match parse_postfix(toks, pos) {
        Ok((base, p)) => {
            if p < toks.len() && matches!(&toks[p], Token::Operator(Operator::Caret)) {
                match parse_unary(toks, p + 1) {
                    Ok((exponent, p2)) => Ok(
                        (Expr::Pow(Box::new(base), Box::new(exponent)), p2),
                    ),
                    Err(e) => Err(e),
                }
            } else {
                Ok((base, p))
            }
        },
        Err(e) => Err(e),
    }
}

fn parse_postfix<T: Copy>(toks: &Vec<Token<T>>, pos: usize) -> (r: Result<
    (Expr<T>, usize),
    ParserError<T>,
>)
    ensures
        pres_view(r) == spec_parse_postfix(crate::lexer::toks_view(toks@), pos as int),
        r matches Ok((e, p)) ==> pos < p <= toks@.len(),
    decreases toks@.len() - pos, 3int,
{
    let ghost tv = crate::lexer::toks_view(toks@);
    let (mut e, mut p) = match parse_primary(toks, pos) {
        Ok(ok) => ok,
        Err(e) => {
            return Err(e);
        },
    };
    loop
        invariant
            pos < p <= toks@.len(),
            tv == crate::lexer::toks_view(toks@),
            spec_parse_postfix(tv, pos as int) == spec_postfix_rest(tv, expr_view(e), p as int),
        decreases toks@.len() - p,
    {
        if p < toks.len() && matches!(&toks[p], Token::Operator(Operator::Exclamation)) {
            e = Expr::Factorial(Box::new(e));
            p = p + 1;
        } else {
            return Ok((e, p));
        }
    }
}

fn parse_primary<T: Copy>(toks: &Vec<Token<T>>, pos: usize) -> (r: Result<
    (Expr<T>, usize),
    ParserError<T>,
>)
    ensures
        pres_view(r) == spec_parse_primary(crate::lexer::toks_view(toks@), pos as int),
        r matches Ok((e, p)) ==> pos < p <= toks@.len(),
    decreases toks@.len() - pos, 1int,
{
    if pos >= toks.len() {
        return Err(ParserError::UnexpectedEnd);
    }
    match &toks[pos] {
        Token::Number(n) => Ok((Expr::Constant(*n), pos + 1)),
        Token::Identifier(name) => {
            if pos + 1 < toks.len() && matches!(&toks[pos + 1], Token::Operator(Operator::LParen)) {
                match exec_func_of(name) {
                    None => Err(ParserError::UnknownFunction(name.clone())),
                    Some(f) => match parse_expr(toks, pos + 2) {
                        Ok((arg, p2)) => {
                            if p2 < toks.len() && matches!(
                                &toks[p2],
                                Token::Operator(Operator::RParen),
                            ) {
                                Ok((Expr::Function(f, Box::new(arg)), p2 + 1))
                            } else {
                                Err(ParserError::UnmatchedParen)
                            }
                        },
                        Err(e) => Err(e),
                    },
                }
            } else {
                Ok((Expr::Identifier(name.clone()), pos + 1))
            }
        },
        Token::Operator(op) => {
            if matches!(op, Operator::LParen) {
                match parse_expr(toks, pos + 1) {
                    Ok((e, p2)) => {
                        if p2 < toks.len() && matches!(&toks[p2], Token::Operator(Operator::RParen))
                            {
                            Ok((e, p2 + 1))
                        } else {
                            Err(ParserError::UnmatchedParen)
                        }
                    },
                    Err(e) => Err(e),
                }
            } else {
                Err(ParserError::UnexpectedToken(Token::Operator(*op)))
            }
        },
    }
}

/// Parses the whole token sequence into a single expression tree.  Any
/// token left after the one complete expression is a syntax error; the
/// tree is exactly what [`spec_parse`] names for these tokens.
pub fn parse<T: Copy>(toks: &Vec<Token<T>>) -> (r: Result<Expr<T>, ParserError<T>>)
    ensures
        parse_res_view(r) == spec_parse(crate::lexer::toks_view(toks@)),
{
    match parse_expr(toks, 0) {
        Ok((e, p)) => {
            if p == toks.len() {
                Ok(e)
            } else {
                Err(ParserError::TrailingToken(clone_token(&toks[p])))
            }
        },
        Err(e) => Err(e),
    }
}

/// Trailing input is never ignored: when a parse succeeds, the
/// expression level consumed every token of the sequence.
pub proof fn lemma_parse_consumes_all<T>(toks: Seq<TokenV<T>>)
    ensures
        spec_parse(toks) is Ok ==> (spec_parse_expr(toks, 0) matches Ok((e, p)) && p
            == toks.len()),
{
}

/// Precedence of the additive and multiplicative levels: a number plus
/// a number times a number parses as the sum of the first with the
/// product of the other two.
pub proof fn lemma_precedence_mul_over_add<T>(a: T, b: T, c: T)
    ensures
        spec_parse(
            seq![
                TokenV::<T>::Number(a),
                TokenV::Operator(Operator::Plus),
                TokenV::Number(b),
                TokenV::Operator(Operator::Star),
                TokenV::Number(c),
            ],
        ) == Ok::<SpecExpr<T>, ParserErrorV<T>>(
            SpecExpr::BinOp(
                BinOperator::Plus,
                Box::new(SpecExpr::Constant(a)),
                Box::new(
                    SpecExpr::BinOp(
                        BinOperator::Star,
                        Box::new(SpecExpr::Constant(b)),
                        Box::new(SpecExpr::Constant(c)),
                    ),
                ),
            ),
        ),
{
    let toks: Seq<TokenV<T>> = seq![
        TokenV::<T>::Number(a),
        TokenV::Operator(Operator::Plus),
        TokenV::Number(b),
        TokenV::Operator(Operator::Star),
        TokenV::Number(c),
    ];
    let ca: SpecExpr<T> = SpecExpr::Constant(a);
    let cb: SpecExpr<T> = SpecExpr::Constant(b);
    let cc: SpecExpr<T> = SpecExpr::Constant(c);
    let prod: SpecExpr<T> = SpecExpr::BinOp(BinOperator::Star, Box::new(cb), Box::new(cc));
    let sum: SpecExpr<T> = SpecExpr::BinOp(BinOperator::Plus, Box::new(ca), Box::new(prod));
    assert(spec_parse_primary(toks, 0) == Ok::<(SpecExpr<T>, int), ParserErrorV<T>>((ca, 1)));
    assert(spec_postfix_rest(toks, ca, 1) == Ok::<(SpecExpr<T>, int), ParserErrorV<T>>((ca, 1)));
    assert(spec_parse_postfix(toks, 0) == Ok::<(SpecExpr<T>, int), ParserErrorV<T>>((ca, 1)));
    assert(spec_parse_power(toks, 0) == Ok::<(SpecExpr<T>, int), ParserErrorV<T>>((ca, 1)));
    assert(spec_parse_unary(toks, 0) == Ok::<(SpecExpr<T>, int), ParserErrorV<T>>((ca, 1)));
    assert(spec_mul_rest(toks, ca, 1) == Ok::<(SpecExpr<T>, int), ParserErrorV<T>>((ca, 1)));
    assert(spec_parse_mul(toks, 0) == Ok::<(SpecExpr<T>, int), ParserErrorV<T>>((ca, 1)));
    assert(spec_parse_primary(toks, 2) == Ok::<(SpecExpr<T>, int), ParserErrorV<T>>((cb, 3)));
    assert(spec_postfix_rest(toks, cb, 3) == Ok::<(SpecExpr<T>, int), ParserErrorV<T>>((cb, 3)));
    assert(spec_parse_postfix(toks, 2) == Ok::<(SpecExpr<T>, int), ParserErrorV<T>>((cb, 3)));
    assert(spec_parse_power(toks, 2) == Ok::<(SpecExpr<T>, int), ParserErrorV<T>>((cb, 3)));
    assert(spec_parse_unary(toks, 2) == Ok::<(SpecExpr<T>, int), ParserErrorV<T>>((cb, 3)));
    assert(spec_parse_primary(toks, 4) == Ok::<(SpecExpr<T>, int), ParserErrorV<T>>((cc, 5)));
    assert(spec_postfix_rest(toks, cc, 5) == Ok::<(SpecExpr<T>, int), ParserErrorV<T>>((cc, 5)));
    assert(spec_parse_postfix(toks, 4) == Ok::<(SpecExpr<T>, int), ParserErrorV<T>>((cc, 5)));
    assert(spec_parse_power(toks, 4) == Ok::<(SpecExpr<T>, int), ParserErrorV<T>>((cc, 5)));
    assert(spec_parse_unary(toks, 4) == Ok::<(SpecExpr<T>, int), ParserErrorV<T>>((cc, 5)));
    assert(spec_mul_rest(toks, prod, 5) == Ok::<(SpecExpr<T>, int), ParserErrorV<T>>((prod, 5)));
    assert(spec_mul_rest(toks, cb, 3) == Ok::<(SpecExpr<T>, int), ParserErrorV<T>>((prod, 5)));
    assert(spec_parse_mul(toks, 2) == Ok::<(SpecExpr<T>, int), ParserErrorV<T>>((prod, 5)));
    assert(spec_add_rest(toks, sum, 5) == Ok::<(SpecExpr<T>, int), ParserErrorV<T>>((sum, 5)));
    assert(spec_add_rest(toks, ca, 1) == Ok::<(SpecExpr<T>, int), ParserErrorV<T>>((sum, 5)));
    assert(spec_parse_additive(toks, 0) == Ok::<(SpecExpr<T>, int), ParserErrorV<T>>((sum, 5)));
    assert(spec_parse_expr(toks, 0) == Ok::<(SpecExpr<T>, int), ParserErrorV<T>>((sum, 5)));
}

/// Right-associativity of power: a number raised to a number raised to
/// a number parses with the right pair grouped first.
pub proof fn lemma_power_right_associative<T>(a: T, b: T, c: T)
    ensures
        spec_parse(
            seq![
                TokenV::<T>::Number(a),
                TokenV::Operator(Operator::Caret),
                TokenV::Number(b),
                TokenV::Operator(Operator::Caret),
                TokenV::Number(c),
            ],
        ) == Ok::<SpecExpr<T>, ParserErrorV<T>>(
            SpecExpr::Pow(
                Box::new(SpecExpr::Constant(a)),
                Box::new(
                    SpecExpr::Pow(
                        Box::new(SpecExpr::Constant(b)),
                        Box::new(SpecExpr::Constant(c)),
                    ),
                ),
            ),
        ),
{
    let toks: Seq<TokenV<T>> = seq![
        TokenV::<T>::Number(a),
        TokenV::Operator(Operator::Caret),
        TokenV::Number(b),
        TokenV::Operator(Operator::Caret),
        TokenV::Number(c),
    ];
    let ca: SpecExpr<T> = SpecExpr::Constant(a);
    let cb: SpecExpr<T> = SpecExpr::Constant(b);
    let cc: SpecExpr<T> = SpecExpr::Constant(c);
    let pbc: SpecExpr<T> = SpecExpr::Pow(Box::new(cb), Box::new(cc));
    let pabc: SpecExpr<T> = SpecExpr::Pow(Box::new(ca), Box::new(pbc));
    assert(spec_parse_primary(toks, 4) == Ok::<(SpecExpr<T>, int), ParserErrorV<T>>((cc, 5)));
    assert(spec_postfix_rest(toks, cc, 5) == Ok::<(SpecExpr<T>, int), ParserErrorV<T>>((cc, 5)));
    assert(spec_parse_postfix(toks, 4) == Ok::<(SpecExpr<T>, int), ParserErrorV<T>>((cc, 5)));
    assert(spec_parse_power(toks, 4) == Ok::<(SpecExpr<T>, int), ParserErrorV<T>>((cc, 5)));
    assert(spec_parse_unary(toks, 4) == Ok::<(SpecExpr<T>, int), ParserErrorV<T>>((cc, 5)));
    assert(spec_parse_primary(toks, 2) == Ok::<(SpecExpr<T>, int), ParserErrorV<T>>((cb, 3)));
    assert(spec_postfix_rest(toks, cb, 3) == Ok::<(SpecExpr<T>, int), ParserErrorV<T>>((cb, 3)));
    assert(spec_parse_postfix(toks, 2) == Ok::<(SpecExpr<T>, int), ParserErrorV<T>>((cb, 3)));
    assert(spec_parse_power(toks, 2) == Ok::<(SpecExpr<T>, int), ParserErrorV<T>>((pbc, 5)));
    assert(spec_parse_unary(toks, 2) == Ok::<(SpecExpr<T>, int), ParserErrorV<T>>((pbc, 5)));
    assert(spec_parse_primary(toks, 0) == Ok::<(SpecExpr<T>, int), ParserErrorV<T>>((ca, 1)));
    assert(spec_postfix_rest(toks, ca, 1) == Ok::<(SpecExpr<T>, int), ParserErrorV<T>>((ca, 1)));
    assert(spec_parse_postfix(toks, 0) == Ok::<(SpecExpr<T>, int), ParserErrorV<T>>((ca, 1)));
    assert(spec_parse_power(toks, 0) == Ok::<(SpecExpr<T>, int), ParserErrorV<T>>((pabc, 5)));
    assert(spec_parse_unary(toks, 0) == Ok::<(SpecExpr<T>, int), ParserErrorV<T>>((pabc, 5)));
    assert(spec_mul_rest(toks, pabc, 5) == Ok::<(SpecExpr<T>, int), ParserErrorV<T>>((pabc, 5)));
    assert(spec_parse_mul(toks, 0) == Ok::<(SpecExpr<T>, int), ParserErrorV<T>>((pabc, 5)));
    assert(spec_add_rest(toks, pabc, 5) == Ok::<(SpecExpr<T>, int), ParserErrorV<T>>((pabc, 5)));
    assert(spec_parse_additive(toks, 0) == Ok::<(SpecExpr<T>, int), ParserErrorV<T>>((pabc, 5)));
    assert(spec_parse_expr(toks, 0) == Ok::<(SpecExpr<T>, int), ParserErrorV<T>>((pabc, 5)));
}

/// Unary minus binds looser than power: a negated power parses as the
/// negation of the whole power.
pub proof fn lemma_unary_minus_binding<T>(a: T, b: T)
    ensures
        spec_parse(
            seq![
                TokenV::<T>::Operator(Operator::Minus),
                TokenV::Number(a),
                TokenV::Operator(Operator::Caret),
                TokenV::Number(b),
            ],
        ) == Ok::<SpecExpr<T>, ParserErrorV<T>>(
            SpecExpr::Neg(
                Box::new(
                    SpecExpr::Pow(
                        Box::new(SpecExpr::Constant(a)),
                        Box::new(SpecExpr::Constant(b)),
                    ),
                ),
            ),
        ),
{
    let toks: Seq<TokenV<T>> = seq![
        TokenV::<T>::Operator(Operator::Minus),
        TokenV::Number(a),
        TokenV::Operator(Operator::Caret),
        TokenV::Number(b),
    ];
    let ca: SpecExpr<T> = SpecExpr::Constant(a);
    let cb: SpecExpr<T> = SpecExpr::Constant(b);
    let pab: SpecExpr<T> = SpecExpr::Pow(Box::new(ca), Box::new(cb));
    let npab: SpecExpr<T> = SpecExpr::Neg(Box::new(pab));
    assert(spec_parse_primary(toks, 3) == Ok::<(SpecExpr<T>, int), ParserErrorV<T>>((cb, 4)));
    assert(spec_postfix_rest(toks, cb, 4) == Ok::<(SpecExpr<T>, int), ParserErrorV<T>>((cb, 4)));
    assert(spec_parse_postfix(toks, 3) == Ok::<(SpecExpr<T>, int), ParserErrorV<T>>((cb, 4)));
    assert(spec_parse_power(toks, 3) == Ok::<(SpecExpr<T>, int), ParserErrorV<T>>((cb, 4)));
    assert(spec_parse_unary(toks, 3) == Ok::<(SpecExpr<T>, int), ParserErrorV<T>>((cb, 4)));
    assert(spec_parse_primary(toks, 1) == Ok::<(SpecExpr<T>, int), ParserErrorV<T>>((ca, 2)));
    assert(spec_postfix_rest(toks, ca, 2) == Ok::<(SpecExpr<T>, int), ParserErrorV<T>>((ca, 2)));
    assert(spec_parse_postfix(toks, 1) == Ok::<(SpecExpr<T>, int), ParserErrorV<T>>((ca, 2)));
    assert(spec_parse_power(toks, 1) == Ok::<(SpecExpr<T>, int), ParserErrorV<T>>((pab, 4)));
    assert(spec_parse_unary(toks, 1) == Ok::<(SpecExpr<T>, int), ParserErrorV<T>>((pab, 4)));
    assert(spec_parse_unary(toks, 0) == Ok::<(SpecExpr<T>, int), ParserErrorV<T>>((npab, 4)));
    assert(spec_mul_rest(toks, npab, 4) == Ok::<(SpecExpr<T>, int), ParserErrorV<T>>((npab, 4)));
    assert(spec_parse_mul(toks, 0) == Ok::<(SpecExpr<T>, int), ParserErrorV<T>>((npab, 4)));
    assert(spec_add_rest(toks, npab, 4) == Ok::<(SpecExpr<T>, int), ParserErrorV<T>>((npab, 4)));
    assert(spec_parse_additive(toks, 0) == Ok::<(SpecExpr<T>, int), ParserErrorV<T>>((npab, 4)));
    assert(spec_parse_expr(toks, 0) == Ok::<(SpecExpr<T>, int), ParserErrorV<T>>((npab, 4)));
}

/// Parsing is a function of the token sequence alone: two parses of the
/// same tokens return structurally identical trees (or the same fault).
pub proof fn lemma_parse_idempotent<T>(
    r1: Result<Expr<T>, ParserError<T>>,
    r2: Result<Expr<T>, ParserError<T>>,
    toks: Seq<TokenV<T>>,
)
    requires
        parse_res_view(r1) == spec_parse(toks),
        parse_res_view(r2) == spec_parse(toks),
    ensures
        parse_res_view(r1) == parse_res_view(r2),
{
}

} // verus!
