//! The grammar, as functions from a source text and a position in it to the
//! syntax tree that starts there and the position after it.
//!
//! ```text
//! program     -> declaration* EOF
//! declaration -> "function" IDENT function | "let" IDENT ("=" expression)? ";"? | statement
//! function    -> "(" (IDENT ("," IDENT)*)? ")" block
//! statement   -> block | if | while | for | print | return | expression
//! block       -> "{" declaration* "}"
//! if          -> "if" "(" expression ")" statement ("else" statement)?
//! while       -> "while" "(" expression ")" statement
//! for         -> "for" "(" (let | expression ";"? | ";") expression? ";" expression? ")" statement
//! print       -> "print" expression ";"?
//! return      -> "return" expression? ";"?
//! expression  -> "function" function | assignment
//! assignment  -> logic_or ("=" assignment)?
//! logic_or    -> logic_and ("||" logic_and)*
//! logic_and   -> equality ("&&" equality)*
//! equality    -> comparison (("==" | "!=") comparison)*
//! comparison  -> term ((">" | ">=" | "<" | "<=") term)*
//! term        -> factor (("+" | "-") factor)*
//! factor      -> unary (("*" | "/") unary)*
//! unary       -> ("!" | "-") unary | call
//! call        -> primary ("(" arguments? ")")*
//! primary     -> NUMBER | STRING | "true" | "false" | "null" | IDENT | "(" expression ")"
//! ```
//!
//! A semicolon after a declaration is optional everywhere.

use vstd::prelude::*;
use crate::ast::{SpecExpr, SpecLiteral, SpecStmt};
use crate::lexer::{lemma_next_token_progress, lemma_skip_spaces, next_token_at, LexError};
use crate::operator::Operator;
use crate::token::SpecToken;

verus! {

/// The most parameters a function may declare, and the most arguments a call
/// may pass.
pub const MAX_ARITY: usize = 255;

/// The mathematical value of a [`crate::parser::ParseError`].
pub enum SpecParseError {
    /// The scanner found no token.
    Lex(LexError),
    /// The token `expected` had to come, and `found` came.
    UnexpectedToken { expected: SpecToken, found: SpecToken },
    /// A name had to come, and `found` came.
    ExpectedIdentifier { found: SpecToken },
    /// An expression had to start, and `found` starts none.
    ExpectedExpression { found: SpecToken },
    /// The left side of `=` is no variable.
    InvalidAssignmentTarget,
    /// A function declares more than `MAX_ARITY` parameters.
    TooManyParameters,
    /// A call passes more than `MAX_ARITY` arguments.
    TooManyArguments,
}

/// A parsed expression and the position after it, or the error.
pub type ParsedExpr = Result<(SpecExpr, int), SpecParseError>;

/// A parsed statement and the position after it, or the error.
pub type ParsedStmt = Result<(SpecStmt, int), SpecParseError>;

/// Parsed statements and the position after them, or the error.
pub type ParsedStmts = Result<(Seq<SpecStmt>, int), SpecParseError>;

/// The six levels of binary operators, from the loosest to the tightest.
#[derive(Debug, Clone, Copy, PartialEq, Eq, Structural)]
pub enum Level {
    Or,
    And,
    Equality,
    Comparison,
    Term,
    Factor,
}

/// The level that binds next tighter than `level`; the operands of the
/// tightest level are unary expressions.
pub open spec fn tighter(level: Level) -> Option<Level> {
    match level {
        Level::Or => Some(Level::And),
        Level::And => Some(Level::Equality),
        Level::Equality => Some(Level::Comparison),
        Level::Comparison => Some(Level::Term),
        Level::Term => Some(Level::Factor),
        Level::Factor => None,
    }
}

/// How many levels bind tighter than `level`.
pub open spec fn looseness(level: Level) -> int {
    match level {
        Level::Or => 5,
        Level::And => 4,
        Level::Equality => 3,
        Level::Comparison => 2,
        Level::Term => 1,
        Level::Factor => 0,
    }
}

/// The operator that a token denotes, if it denotes one.
pub open spec fn operator_of(token: SpecToken) -> Option<Operator> {
    match token {
        SpecToken::Plus => Some(Operator::Plus),
        SpecToken::Minus => Some(Operator::Minus),
        SpecToken::Asterisk => Some(Operator::Asterisk),
        SpecToken::ForwardSlash => Some(Operator::Slash),
        SpecToken::Bang => Some(Operator::Bang),
        SpecToken::Equal => Some(Operator::Equal),
        SpecToken::NotEqual => Some(Operator::NotEqual),
        SpecToken::And => Some(Operator::And),
        SpecToken::Or => Some(Operator::Or),
        SpecToken::LessThan => Some(Operator::LessThan),
        SpecToken::LessThanOrEqual => Some(Operator::LessThanOrEqual),
        SpecToken::GreaterThan => Some(Operator::GreaterThan),
        SpecToken::GreaterThanOrEqual => Some(Operator::GreaterThanOrEqual),
        _ => None,
    }
}

/// Whether `operator` is a binary operator of `level`.
pub open spec fn level_has(level: Level, operator: Operator) -> bool {
    match level {
        Level::Or => operator == Operator::Or,
        Level::And => operator == Operator::And,
        Level::Equality => operator == Operator::Equal || operator == Operator::NotEqual,
        Level::Comparison => operator == Operator::GreaterThan || operator
            == Operator::GreaterThanOrEqual || operator == Operator::LessThan || operator
            == Operator::LessThanOrEqual,
        Level::Term => operator == Operator::Plus || operator == Operator::Minus,
        Level::Factor => operator == Operator::Asterisk || operator == Operator::Slash,
    }
}

/// The binary operator of `level` that the upcoming token at `pos` denotes,
/// if it denotes one.
pub open spec fn operator_at(s: Seq<u8>, pos: int, level: Level) -> Option<Operator> {
    match peek(s, pos) {
        Ok(token) => match operator_of(token) {
            Some(operator) => if level_has(level, operator) {
                Some(operator)
            } else {
                None
            },
            None => None,
        },
        Err(_) => None,
    }
}

/// The upcoming token at `pos`.
pub open spec fn peek(s: Seq<u8>, pos: int) -> Result<SpecToken, LexError> {
    next_token_at(s, pos).token
}

/// The position after the upcoming token at `pos`.
pub open spec fn after(s: Seq<u8>, pos: int) -> int {
    next_token_at(s, pos).next
}

/// Whether the upcoming token at `pos` is `token`.
pub open spec fn upcoming_is(s: Seq<u8>, pos: int, token: SpecToken) -> bool {
    peek(s, pos) == Ok::<SpecToken, LexError>(token)
}

/// The position after the upcoming token where that is `token`, and `pos`
/// itself where it is not.
pub open spec fn skip_if(s: Seq<u8>, pos: int, token: SpecToken) -> int {
    if upcoming_is(s, pos, token) {
        after(s, pos)
    } else {
        pos
    }
}

/// The position after the upcoming token where that is `token`; otherwise
/// the error that names what came instead.
pub open spec fn expect_at(s: Seq<u8>, pos: int, token: SpecToken) -> Result<int, SpecParseError> {
    match peek(s, pos) {
        Ok(found) => if found == token {
            Ok(after(s, pos))
        } else {
            Err(SpecParseError::UnexpectedToken { expected: token, found })
        },
        Err(error) => Err(SpecParseError::Lex(error)),
    }
}

/// How many bytes of `s` lie at or after `pos`.
pub open spec fn remaining(s: Seq<u8>, pos: int) -> nat {
    if pos <= s.len() {
        (s.len() - pos) as nat
    } else {
        0
    }
}

/// `to`, which lies after `from` wherever a parser has consumed a token
/// between the two.
///
/// The grammar functions recur at positions that earlier calls returned. That
/// such a position lies further on is proved of them only once they are
/// defined (see [`crate::progress`]); their definitions say it through this
/// function, which is then the identity.
pub open spec fn onward(from: int, to: int) -> int {
    if to > from {
        to
    } else {
        from + 1
    }
}

/// Scanning, from any position: a token other than the end-of-input marker,
/// and an error too, is found only inside the text, and a token ends after
/// the position where the scanner stood and inside the text.
pub proof fn lemma_token_progress(s: Seq<u8>, pos: int)
    ensures
        peek(s, pos) != Ok::<SpecToken, LexError>(SpecToken::Eof) ==> 0 <= pos < s.len(),
        (peek(s, pos) is Ok && peek(s, pos) != Ok::<SpecToken, LexError>(SpecToken::Eof)) ==> pos
            < after(s, pos) <= s.len(),
        0 <= pos <= s.len() ==> pos <= after(s, pos) <= s.len(),
        !(0 <= pos <= s.len()) ==> after(s, pos) == pos,
        pos <= skip_if(s, pos, SpecToken::Semicolon),
{
    reveal(next_token_at);
    if 0 <= pos <= s.len() {
        lemma_next_token_progress(s, pos);
        lemma_skip_spaces(s, pos);
    }
}

/// The name that the upcoming token is.
pub open spec fn identifier(s: Seq<u8>, pos: int) -> Result<(Seq<char>, int), SpecParseError> {
    match peek(s, pos) {
        Ok(SpecToken::Ident(name)) => Ok((name, after(s, pos))),
        Ok(found) => Err(SpecParseError::ExpectedIdentifier { found }),
        Err(error) => Err(SpecParseError::Lex(error)),
    }
}

/// The parameter names up to the closing parenthesis, which is not consumed.
pub open spec fn parameters(s: Seq<u8>, pos: int) -> Result<
    (Seq<Seq<char>>, int),
    SpecParseError,
> {
    if upcoming_is(s, pos, SpecToken::Rparen) {
        Ok((Seq::empty(), pos))
    } else {
        parameters_from(s, pos, Seq::empty())
    }
}

/// The parameter names from `pos` on, after those of `seen`.
pub open spec fn parameters_from(s: Seq<u8>, pos: int, seen: Seq<Seq<char>>) -> Result<
    (Seq<Seq<char>>, int),
    SpecParseError,
>
    decreases remaining(s, pos),
{
    if seen.len() >= MAX_ARITY {
        Err(SpecParseError::TooManyParameters)
    } else {
        match identifier(s, pos) {
            Ok((name, p1)) => {
                if upcoming_is(s, p1, SpecToken::Comma) {
                    proof {
                        lemma_token_progress(s, pos);
                        lemma_token_progress(s, p1);
                    }
                    parameters_from(s, after(s, p1), seen.push(name))
                } else {
                    Ok((seen.push(name), p1))
                }
            },
            Err(error) => Err(error),
        }
    }
}

/// The expression that a single token is: a name or a constant.
pub open spec fn atom(token: SpecToken) -> Option<SpecExpr> {
    match token {
        SpecToken::Ident(name) => Some(SpecExpr::Variable(name)),
        SpecToken::Number(text) => Some(SpecExpr::Literal(SpecLiteral::Number(text))),
        SpecToken::String(text) => Some(SpecExpr::Literal(SpecLiteral::String(text))),
        SpecToken::True => Some(SpecExpr::Literal(SpecLiteral::Bool(true))),
        SpecToken::False => Some(SpecExpr::Literal(SpecLiteral::Bool(false))),
        SpecToken::Null => Some(SpecExpr::Literal(SpecLiteral::Null)),
        _ => None,
    }
}

/// `primary -> NUMBER | STRING | "true" | "false" | "null" | IDENT | "(" expression ")"`
pub open spec fn primary(s: Seq<u8>, pos: int) -> ParsedExpr
    decreases remaining(s, pos), 5int,
{
    match peek(s, pos) {
        Err(error) => Err(SpecParseError::Lex(error)),
        Ok(token) => {
            if token == SpecToken::Lparen {
                proof {
                    lemma_token_progress(s, pos);
                }
                match expression(s, after(s, pos)) {
                    Ok((inner, p2)) => match expect_at(s, p2, SpecToken::Rparen) {
                        Ok(p3) => Ok((SpecExpr::Grouping(Box::new(inner)), p3)),
                        Err(error) => Err(error),
                    },
                    Err(error) => Err(error),
                }
            } else {
                match atom(token) {
                    Some(expression) => Ok((expression, after(s, pos))),
                    None => Err(SpecParseError::ExpectedExpression { found: token }),
                }
            }
        },
    }
}

/// The arguments of a call up to the closing parenthesis, which is not
/// consumed.
pub open spec fn arguments(s: Seq<u8>, pos: int) -> Result<(Seq<SpecExpr>, int), SpecParseError>
    decreases remaining(s, pos), 25int,
{
    if upcoming_is(s, pos, SpecToken::Rparen) {
        Ok((Seq::empty(), pos))
    } else {
        arguments_from(s, pos, Seq::empty())
    }
}

/// The arguments from `pos` on, after those of `seen`.
pub open spec fn arguments_from(s: Seq<u8>, pos: int, seen: Seq<SpecExpr>) -> Result<
    (Seq<SpecExpr>, int),
    SpecParseError,
>
    decreases remaining(s, pos), 24int,
{
    if seen.len() >= MAX_ARITY {
        Err(SpecParseError::TooManyArguments)
    } else {
        match expression(s, pos) {
            Ok((argument, p1)) => {
                let q = onward(pos, p1);
                if upcoming_is(s, q, SpecToken::Comma) {
                    proof {
                        lemma_token_progress(s, q);
                    }
                    arguments_from(s, after(s, q), seen.push(argument))
                } else {
                    Ok((seen.push(argument), q))
                }
            },
            Err(error) => Err(error),
        }
    }
}

/// `call -> primary ("(" arguments? ")")*`
pub open spec fn call(s: Seq<u8>, pos: int) -> ParsedExpr
    decreases remaining(s, pos), 7int,
{
    match primary(s, pos) {
        Ok((callee, p1)) => call_rest(s, onward(pos, p1), callee),
        Err(error) => Err(error),
    }
}

/// The calls of `callee` that start at `pos`: `("(" arguments? ")")*`.
pub open spec fn call_rest(s: Seq<u8>, pos: int, callee: SpecExpr) -> ParsedExpr
    decreases remaining(s, pos), 6int,
{
    if upcoming_is(s, pos, SpecToken::Lparen) {
        proof {
            lemma_token_progress(s, pos);
        }
        match arguments(s, after(s, pos)) {
            Ok((args, p2)) => match expect_at(s, p2, SpecToken::Rparen) {
                Ok(p3) => call_rest(
                    s,
                    onward(pos, p3),
                    SpecExpr::Call { callee: Box::new(callee), arguments: args },
                ),
                Err(error) => Err(error),
            },
            Err(error) => Err(error),
        }
    } else {
        Ok((callee, pos))
    }
}

/// `unary -> ("!" | "-") unary | call`
pub open spec fn unary(s: Seq<u8>, pos: int) -> ParsedExpr
    decreases remaining(s, pos), 8int,
{
    if upcoming_is(s, pos, SpecToken::Bang) || upcoming_is(s, pos, SpecToken::Minus) {
        proof {
            lemma_token_progress(s, pos);
        }
        match unary(s, after(s, pos)) {
            Ok((right, p2)) => Ok(
                (
                    SpecExpr::Unary {
                        operator: if upcoming_is(s, pos, SpecToken::Bang) {
                            Operator::Bang
                        } else {
                            Operator::Minus
                        },
                        right: Box::new(right),
                    },
                    p2,
                ),
            ),
            Err(error) => Err(error),
        }
    } else {
        call(s, pos)
    }
}

/// An operand of `level`: an expression of the next tighter level.
pub open spec fn operand(s: Seq<u8>, pos: int, level: Level) -> ParsedExpr
    decreases remaining(s, pos), 10 + 2 * looseness(level),
{
    match tighter(level) {
        Some(inner) => binary(s, pos, inner),
        None => unary(s, pos),
    }
}

/// An expression of `level`: operands of that level with its operators
/// between them, grouped from the left.
pub open spec fn binary(s: Seq<u8>, pos: int, level: Level) -> ParsedExpr
    decreases remaining(s, pos), 11 + 2 * looseness(level),
{
    match operand(s, pos, level) {
        Ok((left, p1)) => binary_rest(s, onward(pos, p1), level, left),
        Err(error) => Err(error),
    }
}

/// What follows the operand `left` of `level` at `pos`: operators of that
/// level, each with its right operand.
pub open spec fn binary_rest(s: Seq<u8>, pos: int, level: Level, left: SpecExpr) -> ParsedExpr
    decreases remaining(s, pos), 9 + 2 * looseness(level),
{
    match operator_at(s, pos, level) {
        Some(operator) => {
            proof {
                lemma_token_progress(s, pos);
            }
            match operand(s, after(s, pos), level) {
                Ok((right, p2)) => binary_rest(
                    s,
                    onward(after(s, pos), p2),
                    level,
                    SpecExpr::Binary {
                        left: Box::new(left),
                        operator,
                        right: Box::new(right),
                    },
                ),
                Err(error) => Err(error),
            }
        },
        None => Ok((left, pos)),
    }
}

/// `assignment -> logic_or ("=" assignment)?`, where the left side of `=` has
/// to be a variable.
pub open spec fn assignment(s: Seq<u8>, pos: int) -> ParsedExpr
    decreases remaining(s, pos), 22int,
{
    match binary(s, pos, Level::Or) {
        Ok((target, p1)) => {
            let q = onward(pos, p1);
            if upcoming_is(s, q, SpecToken::Assign) {
                proof {
                    lemma_token_progress(s, q);
                }
                match assignment(s, after(s, q)) {
                    Ok((value, p2)) => match target {
                        SpecExpr::Variable(ident) => Ok(
                            (SpecExpr::Assignement { ident, value: Box::new(value) }, p2),
                        ),
                        _ => Err(SpecParseError::InvalidAssignmentTarget),
                    },
                    Err(error) => Err(error),
                }
            } else {
                Ok((target, q))
            }
        },
        Err(error) => Err(error),
    }
}

/// `expression -> "function" function | assignment`
pub open spec fn expression(s: Seq<u8>, pos: int) -> ParsedExpr
    decreases remaining(s, pos), 23int,
{
    if upcoming_is(s, pos, SpecToken::Function) {
        proof {
            lemma_token_progress(s, pos);
        }
        match function(s, after(s, pos)) {
            Ok(((params, body), p1)) => Ok(
                (SpecExpr::Literal(SpecLiteral::Function { ident: None, params, body }), p1),
            ),
            Err(error) => Err(error),
        }
    } else {
        assignment(s, pos)
    }
}

/// `function -> "(" (IDENT ("," IDENT)*)? ")" block`: the parameters and the
/// body of a function.
pub open spec fn function(s: Seq<u8>, pos: int) -> Result<
    ((Seq<Seq<char>>, Seq<SpecStmt>), int),
    SpecParseError,
>
    decreases remaining(s, pos), 26int,
{
    match expect_at(s, pos, SpecToken::Lparen) {
        Ok(p1) => match parameters(s, p1) {
            Ok((params, p2)) => match expect_at(s, p2, SpecToken::Rparen) {
                Ok(p3) => match expect_at(s, p3, SpecToken::LSquirly) {
                    Ok(p4) => {
                        proof {
                            lemma_token_progress(s, pos);
                        }
                        match block_from(s, onward(pos, p4), Seq::empty()) {
                            Ok((body, p5)) => Ok(((params, body), p5)),
                            Err(error) => Err(error),
                        }
                    },
                    Err(error) => Err(error),
                },
                Err(error) => Err(error),
            },
            Err(error) => Err(error),
        },
        Err(error) => Err(error),
    }
}

/// The declarations of a block from `pos` on, after those of `seen`, up to
/// and with the closing brace.
pub open spec fn block_from(s: Seq<u8>, pos: int, seen: Seq<SpecStmt>) -> ParsedStmts
    decreases remaining(s, pos), 32int,
{
    if upcoming_is(s, pos, SpecToken::RSquirly) {
        Ok((seen, after(s, pos)))
    } else if upcoming_is(s, pos, SpecToken::Eof) {
        Err(
            SpecParseError::UnexpectedToken {
                expected: SpecToken::RSquirly,
                found: SpecToken::Eof,
            },
        )
    } else {
        match declaration(s, pos) {
            Ok((statement, p1)) => {
                proof {
                    lemma_token_progress(s, pos);
                    lemma_token_progress(s, onward(pos, p1));
                }
                block_from(
                    s,
                    skip_if(s, onward(pos, p1), SpecToken::Semicolon),
                    seen.push(statement),
                )
            },
            Err(error) => Err(error),
        }
    }
}

/// `declaration -> "function" IDENT function | "let" IDENT ("=" expression)? ";"? | statement`
pub open spec fn declaration(s: Seq<u8>, pos: int) -> ParsedStmt
    decreases remaining(s, pos), 31int,
{
    if upcoming_is(s, pos, SpecToken::Function) {
        proof {
            lemma_token_progress(s, pos);
        }
        function_decl(s, after(s, pos))
    } else if upcoming_is(s, pos, SpecToken::Let) {
        proof {
            lemma_token_progress(s, pos);
        }
        var_decl(s, after(s, pos))
    } else {
        statement(s, pos)
    }
}

/// What follows `function` in a declaration: `IDENT function`.
pub open spec fn function_decl(s: Seq<u8>, pos: int) -> ParsedStmt
    decreases remaining(s, pos), 27int,
{
    match identifier(s, pos) {
        Ok((ident, p1)) => {
            proof {
                lemma_token_progress(s, pos);
            }
            match function(s, p1) {
                Ok(((parameters, body), p2)) => Ok(
                    (SpecStmt::Function { ident, parameters, body }, p2),
                ),
                Err(error) => Err(error),
            }
        },
        Err(error) => Err(error),
    }
}

/// What follows `let`: `IDENT ("=" expression)? ";"?`.
pub open spec fn var_decl(s: Seq<u8>, pos: int) -> ParsedStmt
    decreases remaining(s, pos), 25int,
{
    match identifier(s, pos) {
        Ok((ident, p1)) => {
            if upcoming_is(s, p1, SpecToken::Assign) {
                proof {
                    lemma_token_progress(s, pos);
                    lemma_token_progress(s, p1);
                }
                match expression(s, after(s, p1)) {
                    Ok((value, p2)) => Ok(
                        (
                            SpecStmt::Let { ident, expression: Some(value) },
                            skip_if(s, p2, SpecToken::Semicolon),
                        ),
                    ),
                    Err(error) => Err(error),
                }
            } else {
                Ok(
                    (
                        SpecStmt::Let { ident, expression: None },
                        skip_if(s, p1, SpecToken::Semicolon),
                    ),
                )
            }
        },
        Err(error) => Err(error),
    }
}

/// `statement -> block | if | while | for | print | return | expression`
pub open spec fn statement(s: Seq<u8>, pos: int) -> ParsedStmt
    decreases remaining(s, pos), 30int,
{
    if upcoming_is(s, pos, SpecToken::If) {
        proof {
            lemma_token_progress(s, pos);
        }
        if_statement(s, after(s, pos))
    } else if upcoming_is(s, pos, SpecToken::LSquirly) {
        proof {
            lemma_token_progress(s, pos);
        }
        match block_from(s, after(s, pos), Seq::empty()) {
            Ok((statements, p1)) => Ok((SpecStmt::Block(statements), p1)),
            Err(error) => Err(error),
        }
    } else if upcoming_is(s, pos, SpecToken::While) {
        proof {
            lemma_token_progress(s, pos);
        }
        while_statement(s, after(s, pos))
    } else if upcoming_is(s, pos, SpecToken::For) {
        proof {
            lemma_token_progress(s, pos);
        }
        for_statement(s, after(s, pos))
    } else if upcoming_is(s, pos, SpecToken::Print) {
        proof {
            lemma_token_progress(s, pos);
        }
        print_statement(s, after(s, pos))
    } else if upcoming_is(s, pos, SpecToken::Return) {
        proof {
            lemma_token_progress(s, pos);
        }
        return_statement(s, after(s, pos))
    } else {
        match expression(s, pos) {
            Ok((value, p1)) => Ok((SpecStmt::Expression(value), p1)),
            Err(error) => Err(error),
        }
    }
}

/// What follows `if`: `"(" expression ")" statement ("else" statement)?`.
pub open spec fn if_statement(s: Seq<u8>, pos: int) -> ParsedStmt
    decreases remaining(s, pos), 27int,
{
    match expect_at(s, pos, SpecToken::Lparen) {
        Ok(p0) => {
            proof {
                lemma_token_progress(s, pos);
            }
            match condition(s, p0) {
                Ok((condition, p1)) => match statement(s, onward(pos, p1)) {
                    Ok((consequence, p2)) => {
                        let q = onward(pos, p2);
                        if upcoming_is(s, q, SpecToken::Else) {
                            proof {
                                lemma_token_progress(s, q);
                            }
                            match statement(s, after(s, q)) {
                                Ok((alternative, p3)) => Ok(
                                    (
                                        SpecStmt::If {
                                            condition,
                                            consequence: Box::new(consequence),
                                            alternative: Some(Box::new(alternative)),
                                        },
                                        p3,
                                    ),
                                ),
                                Err(error) => Err(error),
                            }
                        } else {
                            Ok(
                                (
                                    SpecStmt::If {
                                        condition,
                                        consequence: Box::new(consequence),
                                        alternative: None,
                                    },
                                    q,
                                ),
                            )
                        }
                    },
                    Err(error) => Err(error),
                },
                Err(error) => Err(error),
            }
        },
        Err(error) => Err(error),
    }
}

/// `expression ")"`: the condition of an `if` or a `while`, after its
/// opening parenthesis.
pub open spec fn condition(s: Seq<u8>, pos: int) -> ParsedExpr
    decreases remaining(s, pos), 26int,
{
    match expression(s, pos) {
        Ok((value, p1)) => match expect_at(s, p1, SpecToken::Rparen) {
            Ok(p2) => Ok((value, p2)),
            Err(error) => Err(error),
        },
        Err(error) => Err(error),
    }
}

/// What follows `while`: `"(" expression ")" statement`.
pub open spec fn while_statement(s: Seq<u8>, pos: int) -> ParsedStmt
    decreases remaining(s, pos), 27int,
{
    match expect_at(s, pos, SpecToken::Lparen) {
        Ok(p0) => {
            proof {
                lemma_token_progress(s, pos);
            }
            match condition(s, p0) {
                Ok((condition, p1)) => match statement(s, onward(pos, p1)) {
                    Ok((body, p2)) => Ok(
                        (SpecStmt::While { condition, body: Box::new(body) }, p2),
                    ),
                    Err(error) => Err(error),
                },
                Err(error) => Err(error),
            }
        },
        Err(error) => Err(error),
    }
}

/// The initializer of a `for`: `let ... | expression ";"? | ";"`.
pub open spec fn for_initializer(s: Seq<u8>, pos: int) -> Result<
    (Option<SpecStmt>, int),
    SpecParseError,
>
    decreases remaining(s, pos), 26int,
{
    if upcoming_is(s, pos, SpecToken::Let) {
        proof {
            lemma_token_progress(s, pos);
        }
        match var_decl(s, after(s, pos)) {
            Ok((declaration, p1)) => Ok((Some(declaration), p1)),
            Err(error) => Err(error),
        }
    } else if upcoming_is(s, pos, SpecToken::Semicolon) {
        Ok((None, after(s, pos)))
    } else {
        match expression(s, pos) {
            Ok((value, p1)) => Ok(
                (Some(SpecStmt::Expression(value)), skip_if(s, p1, SpecToken::Semicolon)),
            ),
            Err(error) => Err(error),
        }
    }
}

/// The condition of a `for`, with the semicolon after it: `expression? ";"`.
/// A condition left out is `true`.
pub open spec fn for_condition(s: Seq<u8>, pos: int) -> ParsedExpr
    decreases remaining(s, pos), 26int,
{
    if upcoming_is(s, pos, SpecToken::Semicolon) {
        Ok((SpecExpr::Literal(SpecLiteral::Bool(true)), after(s, pos)))
    } else {
        match expression(s, pos) {
            Ok((condition, p1)) => match expect_at(s, p1, SpecToken::Semicolon) {
                Ok(p2) => Ok((condition, p2)),
                Err(error) => Err(error),
            },
            Err(error) => Err(error),
        }
    }
}

/// The increment of a `for`, with the parenthesis after it: `expression? ")"`.
pub open spec fn for_increment(s: Seq<u8>, pos: int) -> Result<
    (Option<SpecExpr>, int),
    SpecParseError,
>
    decreases remaining(s, pos), 26int,
{
    if upcoming_is(s, pos, SpecToken::Rparen) {
        Ok((None, after(s, pos)))
    } else {
        match expression(s, pos) {
            Ok((increment, p1)) => match expect_at(s, p1, SpecToken::Rparen) {
                Ok(p2) => Ok((Some(increment), p2)),
                Err(error) => Err(error),
            },
            Err(error) => Err(error),
        }
    }
}

/// The loop that a `for` stands for: `body` followed by `increment` in a
/// block, where there is an increment; that as the body of a `while`; and
/// `initializer` followed by the `while` in a block, where there is an
/// initializer.
pub open spec fn desugared_for(
    initializer: Option<SpecStmt>,
    condition: SpecExpr,
    increment: Option<SpecExpr>,
    body: SpecStmt,
) -> SpecStmt {
    let stepped = match increment {
        Some(step) => SpecStmt::Block(seq![body, SpecStmt::Expression(step)]),
        None => body,
    };
    let repeated = SpecStmt::While { condition, body: Box::new(stepped) };
    match initializer {
        Some(first) => SpecStmt::Block(seq![first, repeated]),
        None => repeated,
    }
}

/// What follows `for`:
/// `"(" (let | expression ";"? | ";") expression? ";" expression? ")" statement`.
pub open spec fn for_statement(s: Seq<u8>, pos: int) -> ParsedStmt
    decreases remaining(s, pos), 27int,
{
    match expect_at(s, pos, SpecToken::Lparen) {
        Ok(p1) => {
            proof {
                lemma_token_progress(s, pos);
            }
            match for_initializer(s, p1) {
                Ok((initializer, p2)) => match for_condition(s, onward(pos, p2)) {
                    Ok((condition, p3)) => match for_increment(s, onward(pos, p3)) {
                        Ok((increment, p4)) => match statement(s, onward(pos, p4)) {
                            Ok((body, p5)) => Ok(
                                (desugared_for(initializer, condition, increment, body), p5),
                            ),
                            Err(error) => Err(error),
                        },
                        Err(error) => Err(error),
                    },
                    Err(error) => Err(error),
                },
                Err(error) => Err(error),
            }
        },
        Err(error) => Err(error),
    }
}

/// What follows `print`: `expression ";"?`.
pub open spec fn print_statement(s: Seq<u8>, pos: int) -> ParsedStmt
    decreases remaining(s, pos), 25int,
{
    match expression(s, pos) {
        Ok((value, p1)) => Ok((SpecStmt::Print(value), skip_if(s, p1, SpecToken::Semicolon))),
        Err(error) => Err(error),
    }
}

/// What follows `return`: `expression?`. The value is left out where a
/// semicolon, a closing brace or the end of the text comes next; what is
/// returned then is `null`.
pub open spec fn return_statement(s: Seq<u8>, pos: int) -> ParsedStmt
    decreases remaining(s, pos), 25int,
{
    if upcoming_is(s, pos, SpecToken::Semicolon) || upcoming_is(s, pos, SpecToken::RSquirly)
        || upcoming_is(s, pos, SpecToken::Eof) {
        Ok((SpecStmt::Return(SpecExpr::Literal(SpecLiteral::Null)), pos))
    } else {
        match expression(s, pos) {
            Ok((value, p1)) => Ok((SpecStmt::Return(value), p1)),
            Err(error) => Err(error),
        }
    }
}

/// The declarations of a program from `pos` on, after those of `seen`, up to
/// the end of the text.
pub open spec fn program_from(s: Seq<u8>, pos: int, seen: Seq<SpecStmt>) -> Result<
    Seq<SpecStmt>,
    SpecParseError,
>
    decreases remaining(s, pos), 33int,
{
    if upcoming_is(s, pos, SpecToken::Eof) {
        Ok(seen)
    } else {
        match declaration(s, pos) {
            Ok((statement, p1)) => {
                proof {
                    lemma_token_progress(s, pos);
                    lemma_token_progress(s, onward(pos, p1));
                }
                program_from(
                    s,
                    skip_if(s, onward(pos, p1), SpecToken::Semicolon),
                    seen.push(statement),
                )
            },
            Err(error) => Err(error),
        }
    }
}

/// `program -> declaration* EOF`: the statements of the source text `s`, or
/// the first error in it.
pub open spec fn program(s: Seq<u8>) -> Result<Seq<SpecStmt>, SpecParseError> {
    program_from(s, 0, Seq::empty())
}

} // verus!
