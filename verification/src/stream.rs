//! What is parsed depends on the tokens alone: two texts with the same tokens
//! are the same program, however they are laid out.

use vstd::prelude::*;
use crate::ast::{SpecExpr, SpecStmt};
use crate::grammar::{
    after, arguments, arguments_from, assignment, binary, binary_rest, block_from, call,
    call_rest, condition, declaration, expect_at, expression, for_condition, for_increment,
    for_initializer, for_statement, function, function_decl, identifier, if_statement,
    lemma_token_progress, looseness, operand, operator_at, parameters, parameters_from,
    peek, primary, print_statement, program, program_from, remaining, return_statement, skip_if,
    statement, tighter, unary, upcoming_is, var_decl, while_statement, Level, SpecParseError,
    MAX_ARITY,
};
use crate::lexer::LexError;
use crate::progress::{
    lemma_binary_progress, lemma_condition_progress,
    lemma_declaration_progress, lemma_expression_progress, lemma_for_condition_progress,
    lemma_for_increment_progress, lemma_for_initializer_progress, lemma_operand_progress,
    lemma_primary_progress, lemma_statement_progress,
};
use crate::token::SpecToken;

verus! {

/// The token that a scanner at `pos` yields after `n` others.
pub open spec fn token_ahead(s: Seq<u8>, pos: int, n: nat) -> Result<SpecToken, LexError>
    decreases n,
{
    if n == 0 {
        peek(s, pos)
    } else {
        token_ahead(s, after(s, pos), (n - 1) as nat)
    }
}

/// Whether a scanner at `p` in the text `s` and one at `q` in the text `t`
/// yield the same tokens, one after the other.
pub open spec fn same_tokens(s: Seq<u8>, p: int, t: Seq<u8>, q: int) -> bool {
    forall|n: nat| token_ahead(s, p, n) == token_ahead(t, q, n)
}

/// Whether `a`, parsed from `s`, and `b`, parsed from `t`, are the same
/// result, after which the same tokens follow.
pub open spec fn agree<T>(
    s: Seq<u8>,
    a: Result<(T, int), SpecParseError>,
    t: Seq<u8>,
    b: Result<(T, int), SpecParseError>,
) -> bool {
    match (a, b) {
        (Ok((x, p)), Ok((y, q))) => x == y && same_tokens(s, p, t, q),
        (Err(x), Err(y)) => x == y,
        _ => false,
    }
}

/// Scanners that yield the same tokens have the same upcoming token, and
/// yield the same tokens after it.
pub proof fn lemma_same_tokens_step(s: Seq<u8>, p: int, t: Seq<u8>, q: int)
    requires
        same_tokens(s, p, t, q),
    ensures
        peek(s, p) == peek(t, q),
        same_tokens(s, after(s, p), t, after(t, q)),
        forall|token: SpecToken| upcoming_is(s, p, token) == upcoming_is(t, q, token),
        forall|token: SpecToken|
            same_tokens(s, #[trigger] skip_if(s, p, token), t, skip_if(t, q, token)),
        forall|level: Level| operator_at(s, p, level) == operator_at(t, q, level),
{
    assert(token_ahead(s, p, 0) == token_ahead(t, q, 0));
    assert forall|n: nat| token_ahead(s, after(s, p), n) == token_ahead(t, after(t, q), n) by {
        assert(token_ahead(s, p, n + 1) == token_ahead(t, q, n + 1));
    }
}

/// Scanners that yield the same tokens agree on an expected token.
pub proof fn lemma_expect_agrees(s: Seq<u8>, p: int, t: Seq<u8>, q: int, token: SpecToken)
    requires
        same_tokens(s, p, t, q),
    ensures
        match (expect_at(s, p, token), expect_at(t, q, token)) {
            (Ok(x), Ok(y)) => same_tokens(s, x, t, y),
            (Err(x), Err(y)) => x == y,
            _ => false,
        },
{
    lemma_same_tokens_step(s, p, t, q);
}

/// Scanners that yield the same tokens agree on a name.
pub proof fn lemma_identifier_agrees(s: Seq<u8>, p: int, t: Seq<u8>, q: int)
    requires
        same_tokens(s, p, t, q),
    ensures
        agree(s, identifier(s, p), t, identifier(t, q)),
{
    lemma_same_tokens_step(s, p, t, q);
}

/// Scanners that yield the same tokens agree on parameters.
pub proof fn lemma_parameters_from_agree(
    s: Seq<u8>,
    p: int,
    t: Seq<u8>,
    q: int,
    seen: Seq<Seq<char>>,
)
    requires
        same_tokens(s, p, t, q),
    ensures
        agree(s, parameters_from(s, p, seen), t, parameters_from(t, q, seen)),
    decreases remaining(s, p),
{
    if seen.len() < MAX_ARITY {
        lemma_identifier_agrees(s, p, t, q);
        lemma_token_progress(s, p);
        match (identifier(s, p), identifier(t, q)) {
            (Ok((name, p1)), Ok((_, q1))) => {
                lemma_same_tokens_step(s, p1, t, q1);
                if upcoming_is(s, p1, SpecToken::Comma) {
                    lemma_token_progress(s, p1);
                    lemma_parameters_from_agree(
                        s,
                        after(s, p1),
                        t,
                        after(t, q1),
                        seen.push(name),
                    );
                }
            },
            _ => {},
        }
    }
}

/// Scanners that yield the same tokens agree on parameters.
pub proof fn lemma_parameters_agree(s: Seq<u8>, p: int, t: Seq<u8>, q: int)
    requires
        same_tokens(s, p, t, q),
    ensures
        agree(s, parameters(s, p), t, parameters(t, q)),
{
    lemma_same_tokens_step(s, p, t, q);
    lemma_parameters_from_agree(s, p, t, q, Seq::empty());
}

/// Scanners that yield the same tokens agree on a primary expression.
pub proof fn lemma_primary_agrees(s: Seq<u8>, p: int, t: Seq<u8>, q: int)
    requires
        same_tokens(s, p, t, q),
    ensures
        agree(s, primary(s, p), t, primary(t, q)),
    decreases remaining(s, p), 5int,
{
    lemma_same_tokens_step(s, p, t, q);
    lemma_token_progress(s, p);
    if peek(s, p) == Ok::<SpecToken, LexError>(SpecToken::Lparen) {
        lemma_expression_agrees(s, after(s, p), t, after(t, q));
        match (expression(s, after(s, p)), expression(t, after(t, q))) {
            (Ok((_, p2)), Ok((_, q2))) => {
                lemma_expect_agrees(s, p2, t, q2, SpecToken::Rparen);
            },
            _ => {},
        }
    }
}

/// Scanners that yield the same tokens agree on arguments.
pub proof fn lemma_arguments_agree(s: Seq<u8>, p: int, t: Seq<u8>, q: int)
    requires
        same_tokens(s, p, t, q),
    ensures
        agree(s, arguments(s, p), t, arguments(t, q)),
    decreases remaining(s, p), 25int,
{
    lemma_same_tokens_step(s, p, t, q);
    if !upcoming_is(s, p, SpecToken::Rparen) {
        lemma_arguments_from_agree(s, p, t, q, Seq::empty());
    }
}

/// Scanners that yield the same tokens agree on arguments.
pub proof fn lemma_arguments_from_agree(
    s: Seq<u8>,
    p: int,
    t: Seq<u8>,
    q: int,
    seen: Seq<SpecExpr>,
)
    requires
        same_tokens(s, p, t, q),
    ensures
        agree(s, arguments_from(s, p, seen), t, arguments_from(t, q, seen)),
    decreases remaining(s, p), 24int,
{
    if seen.len() < MAX_ARITY {
        lemma_expression_agrees(s, p, t, q);
        lemma_expression_progress(s, p);
        lemma_expression_progress(t, q);
        match (expression(s, p), expression(t, q)) {
            (Ok((argument, p1)), Ok((_, q1))) => {
                lemma_same_tokens_step(s, p1, t, q1);
                if upcoming_is(s, p1, SpecToken::Comma) {
                    lemma_token_progress(s, p1);
                    lemma_arguments_from_agree(
                        s,
                        after(s, p1),
                        t,
                        after(t, q1),
                        seen.push(argument),
                    );
                }
            },
            _ => {},
        }
    }
}

/// Scanners that yield the same tokens agree on a call expression.
pub proof fn lemma_call_agrees(s: Seq<u8>, p: int, t: Seq<u8>, q: int)
    requires
        same_tokens(s, p, t, q),
    ensures
        agree(s, call(s, p), t, call(t, q)),
    decreases remaining(s, p), 7int,
{
    lemma_primary_agrees(s, p, t, q);
    lemma_primary_progress(s, p);
    lemma_primary_progress(t, q);
    match (primary(s, p), primary(t, q)) {
        (Ok((callee, p1)), Ok((_, q1))) => {
            lemma_call_rest_agrees(s, p1, t, q1, callee);
        },
        _ => {},
    }
}

/// Scanners that yield the same tokens agree on the calls of a callee.
pub proof fn lemma_call_rest_agrees(s: Seq<u8>, p: int, t: Seq<u8>, q: int, callee: SpecExpr)
    requires
        same_tokens(s, p, t, q),
    ensures
        agree(s, call_rest(s, p, callee), t, call_rest(t, q, callee)),
    decreases remaining(s, p), 6int,
{
    lemma_same_tokens_step(s, p, t, q);
    if upcoming_is(s, p, SpecToken::Lparen) {
        lemma_token_progress(s, p);
        lemma_token_progress(t, q);
        lemma_arguments_agree(s, after(s, p), t, after(t, q));
        crate::progress::lemma_arguments_progress(s, after(s, p));
        crate::progress::lemma_arguments_progress(t, after(t, q));
        match (arguments(s, after(s, p)), arguments(t, after(t, q))) {
            (Ok((args, p2)), Ok((_, q2))) => {
                lemma_expect_agrees(s, p2, t, q2, SpecToken::Rparen);
                crate::progress::lemma_expect_progress(s, p2, SpecToken::Rparen);
                crate::progress::lemma_expect_progress(t, q2, SpecToken::Rparen);
                match (
                    expect_at(s, p2, SpecToken::Rparen),
                    expect_at(t, q2, SpecToken::Rparen),
                ) {
                    (Ok(p3), Ok(q3)) => {
                        lemma_call_rest_agrees(
                            s,
                            p3,
                            t,
                            q3,
                            SpecExpr::Call { callee: Box::new(callee), arguments: args },
                        );
                    },
                    _ => {},
                }
            },
            _ => {},
        }
    }
}

/// Scanners that yield the same tokens agree on a unary expression.
pub proof fn lemma_unary_agrees(s: Seq<u8>, p: int, t: Seq<u8>, q: int)
    requires
        same_tokens(s, p, t, q),
    ensures
        agree(s, unary(s, p), t, unary(t, q)),
    decreases remaining(s, p), 8int,
{
    lemma_same_tokens_step(s, p, t, q);
    if upcoming_is(s, p, SpecToken::Bang) || upcoming_is(s, p, SpecToken::Minus) {
        lemma_token_progress(s, p);
        lemma_unary_agrees(s, after(s, p), t, after(t, q));
    } else {
        lemma_call_agrees(s, p, t, q);
    }
}

/// Scanners that yield the same tokens agree on an operand.
pub proof fn lemma_operand_agrees(s: Seq<u8>, p: int, t: Seq<u8>, q: int, level: Level)
    requires
        same_tokens(s, p, t, q),
    ensures
        agree(s, operand(s, p, level), t, operand(t, q, level)),
    decreases remaining(s, p), 10 + 2 * looseness(level),
{
    match tighter(level) {
        Some(inner) => lemma_binary_agrees(s, p, t, q, inner),
        None => lemma_unary_agrees(s, p, t, q),
    }
}

/// Scanners that yield the same tokens agree on a binary expression.
pub proof fn lemma_binary_agrees(s: Seq<u8>, p: int, t: Seq<u8>, q: int, level: Level)
    requires
        same_tokens(s, p, t, q),
    ensures
        agree(s, binary(s, p, level), t, binary(t, q, level)),
    decreases remaining(s, p), 11 + 2 * looseness(level),
{
    lemma_operand_agrees(s, p, t, q, level);
    lemma_operand_progress(s, p, level);
    lemma_operand_progress(t, q, level);
    match (operand(s, p, level), operand(t, q, level)) {
        (Ok((left, p1)), Ok((_, q1))) => {
            lemma_binary_rest_agrees(s, p1, t, q1, level, left);
        },
        _ => {},
    }
}

/// Scanners that yield the same tokens agree on what follows an operand.
pub proof fn lemma_binary_rest_agrees(
    s: Seq<u8>,
    p: int,
    t: Seq<u8>,
    q: int,
    level: Level,
    left: SpecExpr,
)
    requires
        same_tokens(s, p, t, q),
    ensures
        agree(s, binary_rest(s, p, level, left), t, binary_rest(t, q, level, left)),
    decreases remaining(s, p), 9 + 2 * looseness(level),
{
    lemma_same_tokens_step(s, p, t, q);
    match operator_at(s, p, level) {
        Some(operator) => {
            lemma_token_progress(s, p);
            lemma_operand_agrees(s, after(s, p), t, after(t, q), level);
            lemma_operand_progress(s, after(s, p), level);
            lemma_operand_progress(t, after(t, q), level);
            match (operand(s, after(s, p), level), operand(t, after(t, q), level)) {
                (Ok((right, p2)), Ok((_, q2))) => {
                    lemma_binary_rest_agrees(
                        s,
                        p2,
                        t,
                        q2,
                        level,
                        SpecExpr::Binary {
                            left: Box::new(left),
                            operator,
                            right: Box::new(right),
                        },
                    );
                },
                _ => {},
            }
        },
        None => {},
    }
}

/// Scanners that yield the same tokens agree on an assignment.
pub proof fn lemma_assignment_agrees(s: Seq<u8>, p: int, t: Seq<u8>, q: int)
    requires
        same_tokens(s, p, t, q),
    ensures
        agree(s, assignment(s, p), t, assignment(t, q)),
    decreases remaining(s, p), 22int,
{
    lemma_binary_agrees(s, p, t, q, Level::Or);
    lemma_binary_progress(s, p, Level::Or);
    lemma_binary_progress(t, q, Level::Or);
    match (binary(s, p, Level::Or), binary(t, q, Level::Or)) {
        (Ok((_, p1)), Ok((_, q1))) => {
            lemma_same_tokens_step(s, p1, t, q1);
            if upcoming_is(s, p1, SpecToken::Assign) {
                lemma_token_progress(s, p1);
                lemma_assignment_agrees(s, after(s, p1), t, after(t, q1));
            }
        },
        _ => {},
    }
}

/// Scanners that yield the same tokens agree on an expression.
pub proof fn lemma_expression_agrees(s: Seq<u8>, p: int, t: Seq<u8>, q: int)
    requires
        same_tokens(s, p, t, q),
    ensures
        agree(s, expression(s, p), t, expression(t, q)),
    decreases remaining(s, p), 23int,
{
    lemma_same_tokens_step(s, p, t, q);
    if upcoming_is(s, p, SpecToken::Function) {
        lemma_token_progress(s, p);
        lemma_function_agrees(s, after(s, p), t, after(t, q));
    } else {
        lemma_assignment_agrees(s, p, t, q);
    }
}

/// Scanners that yield the same tokens agree on the parameters and the body
/// of a function.
pub proof fn lemma_function_agrees(s: Seq<u8>, p: int, t: Seq<u8>, q: int)
    requires
        same_tokens(s, p, t, q),
    ensures
        agree(s, function(s, p), t, function(t, q)),
    decreases remaining(s, p), 26int,
{
    lemma_expect_agrees(s, p, t, q, SpecToken::Lparen);
    lemma_token_progress(s, p);
    lemma_token_progress(t, q);
    match (expect_at(s, p, SpecToken::Lparen), expect_at(t, q, SpecToken::Lparen)) {
        (Ok(p1), Ok(q1)) => {
            lemma_parameters_agree(s, p1, t, q1);
            crate::progress::lemma_parameters_progress(s, p1);
            crate::progress::lemma_parameters_progress(t, q1);
            match (parameters(s, p1), parameters(t, q1)) {
                (Ok((_, p2)), Ok((_, q2))) => {
                    lemma_expect_agrees(s, p2, t, q2, SpecToken::Rparen);
                    crate::progress::lemma_expect_progress(s, p2, SpecToken::Rparen);
                    crate::progress::lemma_expect_progress(t, q2, SpecToken::Rparen);
                    match (
                        expect_at(s, p2, SpecToken::Rparen),
                        expect_at(t, q2, SpecToken::Rparen),
                    ) {
                        (Ok(p3), Ok(q3)) => {
                            lemma_expect_agrees(s, p3, t, q3, SpecToken::LSquirly);
                            crate::progress::lemma_expect_progress(s, p3, SpecToken::LSquirly);
                            crate::progress::lemma_expect_progress(t, q3, SpecToken::LSquirly);
                            match (
                                expect_at(s, p3, SpecToken::LSquirly),
                                expect_at(t, q3, SpecToken::LSquirly),
                            ) {
                                (Ok(p4), Ok(q4)) => {
                                    lemma_block_from_agrees(s, p4, t, q4, Seq::empty());
                                },
                                _ => {},
                            }
                        },
                        _ => {},
                    }
                },
                _ => {},
            }
        },
        _ => {},
    }
}

/// Scanners that yield the same tokens agree on the declarations of a block.
pub proof fn lemma_block_from_agrees(
    s: Seq<u8>,
    p: int,
    t: Seq<u8>,
    q: int,
    seen: Seq<SpecStmt>,
)
    requires
        same_tokens(s, p, t, q),
    ensures
        agree(s, block_from(s, p, seen), t, block_from(t, q, seen)),
    decreases remaining(s, p), 32int,
{
    lemma_same_tokens_step(s, p, t, q);
    lemma_token_progress(s, p);
    if !upcoming_is(s, p, SpecToken::RSquirly) && !upcoming_is(s, p, SpecToken::Eof) {
        lemma_declaration_agrees(s, p, t, q);
        lemma_declaration_progress(s, p);
        lemma_declaration_progress(t, q);
        match (declaration(s, p), declaration(t, q)) {
            (Ok((statement, p1)), Ok((_, q1))) => {
                lemma_same_tokens_step(s, p1, t, q1);
                lemma_token_progress(s, p1);
                lemma_block_from_agrees(
                    s,
                    skip_if(s, p1, SpecToken::Semicolon),
                    t,
                    skip_if(t, q1, SpecToken::Semicolon),
                    seen.push(statement),
                );
            },
            _ => {},
        }
    }
}

/// Scanners that yield the same tokens agree on a declaration.
pub proof fn lemma_declaration_agrees(s: Seq<u8>, p: int, t: Seq<u8>, q: int)
    requires
        same_tokens(s, p, t, q),
    ensures
        agree(s, declaration(s, p), t, declaration(t, q)),
    decreases remaining(s, p), 31int,
{
    lemma_same_tokens_step(s, p, t, q);
    lemma_token_progress(s, p);
    if upcoming_is(s, p, SpecToken::Function) {
        lemma_function_decl_agrees(s, after(s, p), t, after(t, q));
    } else if upcoming_is(s, p, SpecToken::Let) {
        lemma_var_decl_agrees(s, after(s, p), t, after(t, q));
    } else {
        lemma_statement_agrees(s, p, t, q);
    }
}

/// Scanners that yield the same tokens agree on what follows `function` in a
/// declaration.
pub proof fn lemma_function_decl_agrees(s: Seq<u8>, p: int, t: Seq<u8>, q: int)
    requires
        same_tokens(s, p, t, q),
    ensures
        agree(s, function_decl(s, p), t, function_decl(t, q)),
    decreases remaining(s, p), 27int,
{
    lemma_identifier_agrees(s, p, t, q);
    lemma_token_progress(s, p);
    match (identifier(s, p), identifier(t, q)) {
        (Ok((_, p1)), Ok((_, q1))) => {
            lemma_function_agrees(s, p1, t, q1);
        },
        _ => {},
    }
}

/// Scanners that yield the same tokens agree on what follows `let`.
pub proof fn lemma_var_decl_agrees(s: Seq<u8>, p: int, t: Seq<u8>, q: int)
    requires
        same_tokens(s, p, t, q),
    ensures
        agree(s, var_decl(s, p), t, var_decl(t, q)),
    decreases remaining(s, p), 25int,
{
    lemma_identifier_agrees(s, p, t, q);
    lemma_token_progress(s, p);
    match (identifier(s, p), identifier(t, q)) {
        (Ok((_, p1)), Ok((_, q1))) => {
            lemma_same_tokens_step(s, p1, t, q1);
            lemma_token_progress(s, p1);
            if upcoming_is(s, p1, SpecToken::Assign) {
                lemma_expression_agrees(s, after(s, p1), t, after(t, q1));
                match (expression(s, after(s, p1)), expression(t, after(t, q1))) {
                    (Ok((_, p2)), Ok((_, q2))) => {
                        lemma_same_tokens_step(s, p2, t, q2);
                    },
                    _ => {},
                }
            }
        },
        _ => {},
    }
}

/// Scanners that yield the same tokens agree on a statement.
pub proof fn lemma_statement_agrees(s: Seq<u8>, p: int, t: Seq<u8>, q: int)
    requires
        same_tokens(s, p, t, q),
    ensures
        agree(s, statement(s, p), t, statement(t, q)),
    decreases remaining(s, p), 30int,
{
    lemma_same_tokens_step(s, p, t, q);
    lemma_token_progress(s, p);
    if upcoming_is(s, p, SpecToken::If) {
        lemma_if_statement_agrees(s, after(s, p), t, after(t, q));
    } else if upcoming_is(s, p, SpecToken::LSquirly) {
        lemma_block_from_agrees(s, after(s, p), t, after(t, q), Seq::empty());
    } else if upcoming_is(s, p, SpecToken::While) {
        lemma_while_statement_agrees(s, after(s, p), t, after(t, q));
    } else if upcoming_is(s, p, SpecToken::For) {
        lemma_for_statement_agrees(s, after(s, p), t, after(t, q));
    } else if upcoming_is(s, p, SpecToken::Print) {
        lemma_print_statement_agrees(s, after(s, p), t, after(t, q));
    } else if upcoming_is(s, p, SpecToken::Return) {
        lemma_return_statement_agrees(s, after(s, p), t, after(t, q));
    } else {
        lemma_expression_agrees(s, p, t, q);
    }
}

/// Scanners that yield the same tokens agree on a condition.
pub proof fn lemma_condition_agrees(s: Seq<u8>, p: int, t: Seq<u8>, q: int)
    requires
        same_tokens(s, p, t, q),
    ensures
        agree(s, condition(s, p), t, condition(t, q)),
    decreases remaining(s, p), 26int,
{
    lemma_expression_agrees(s, p, t, q);
    match (expression(s, p), expression(t, q)) {
        (Ok((_, p1)), Ok((_, q1))) => {
            lemma_expect_agrees(s, p1, t, q1, SpecToken::Rparen);
        },
        _ => {},
    }
}

/// Scanners that yield the same tokens agree on what follows `if`.
pub proof fn lemma_if_statement_agrees(s: Seq<u8>, p: int, t: Seq<u8>, q: int)
    requires
        same_tokens(s, p, t, q),
    ensures
        agree(s, if_statement(s, p), t, if_statement(t, q)),
    decreases remaining(s, p), 27int,
{
    lemma_expect_agrees(s, p, t, q, SpecToken::Lparen);
    lemma_token_progress(s, p);
    lemma_token_progress(t, q);
    match (expect_at(s, p, SpecToken::Lparen), expect_at(t, q, SpecToken::Lparen)) {
        (Ok(p0), Ok(q0)) => {
            lemma_condition_agrees(s, p0, t, q0);
            lemma_condition_progress(s, p0);
            lemma_condition_progress(t, q0);
            match (condition(s, p0), condition(t, q0)) {
                (Ok((_, p1)), Ok((_, q1))) => {
                    lemma_statement_agrees(s, p1, t, q1);
                    lemma_statement_progress(s, p1);
                    lemma_statement_progress(t, q1);
                    match (statement(s, p1), statement(t, q1)) {
                        (Ok((_, p2)), Ok((_, q2))) => {
                            lemma_same_tokens_step(s, p2, t, q2);
                            if upcoming_is(s, p2, SpecToken::Else) {
                                lemma_token_progress(s, p2);
                                lemma_statement_agrees(s, after(s, p2), t, after(t, q2));
                            }
                        },
                        _ => {},
                    }
                },
                _ => {},
            }
        },
        _ => {},
    }
}

/// Scanners that yield the same tokens agree on what follows `while`.
pub proof fn lemma_while_statement_agrees(s: Seq<u8>, p: int, t: Seq<u8>, q: int)
    requires
        same_tokens(s, p, t, q),
    ensures
        agree(s, while_statement(s, p), t, while_statement(t, q)),
    decreases remaining(s, p), 27int,
{
    lemma_expect_agrees(s, p, t, q, SpecToken::Lparen);
    lemma_token_progress(s, p);
    lemma_token_progress(t, q);
    match (expect_at(s, p, SpecToken::Lparen), expect_at(t, q, SpecToken::Lparen)) {
        (Ok(p0), Ok(q0)) => {
            lemma_condition_agrees(s, p0, t, q0);
            lemma_condition_progress(s, p0);
            lemma_condition_progress(t, q0);
            match (condition(s, p0), condition(t, q0)) {
                (Ok((_, p1)), Ok((_, q1))) => {
                    lemma_statement_agrees(s, p1, t, q1);
                },
                _ => {},
            }
        },
        _ => {},
    }
}

/// Scanners that yield the same tokens agree on the initializer of a `for`.
pub proof fn lemma_for_initializer_agrees(s: Seq<u8>, p: int, t: Seq<u8>, q: int)
    requires
        same_tokens(s, p, t, q),
    ensures
        agree(s, for_initializer(s, p), t, for_initializer(t, q)),
    decreases remaining(s, p), 26int,
{
    lemma_same_tokens_step(s, p, t, q);
    lemma_token_progress(s, p);
    if upcoming_is(s, p, SpecToken::Let) {
        lemma_var_decl_agrees(s, after(s, p), t, after(t, q));
    } else if upcoming_is(s, p, SpecToken::Semicolon) {
    } else {
        lemma_expression_agrees(s, p, t, q);
        match (expression(s, p), expression(t, q)) {
            (Ok((_, p1)), Ok((_, q1))) => {
                lemma_same_tokens_step(s, p1, t, q1);
            },
            _ => {},
        }
    }
}

/// Scanners that yield the same tokens agree on the condition of a `for`.
pub proof fn lemma_for_condition_agrees(s: Seq<u8>, p: int, t: Seq<u8>, q: int)
    requires
        same_tokens(s, p, t, q),
    ensures
        agree(s, for_condition(s, p), t, for_condition(t, q)),
    decreases remaining(s, p), 26int,
{
    lemma_same_tokens_step(s, p, t, q);
    if !upcoming_is(s, p, SpecToken::Semicolon) {
        lemma_expression_agrees(s, p, t, q);
        match (expression(s, p), expression(t, q)) {
            (Ok((_, p1)), Ok((_, q1))) => {
                lemma_expect_agrees(s, p1, t, q1, SpecToken::Semicolon);
            },
            _ => {},
        }
    }
}

/// Scanners that yield the same tokens agree on the increment of a `for`.
pub proof fn lemma_for_increment_agrees(s: Seq<u8>, p: int, t: Seq<u8>, q: int)
    requires
        same_tokens(s, p, t, q),
    ensures
        agree(s, for_increment(s, p), t, for_increment(t, q)),
    decreases remaining(s, p), 26int,
{
    lemma_same_tokens_step(s, p, t, q);
    if !upcoming_is(s, p, SpecToken::Rparen) {
        lemma_expression_agrees(s, p, t, q);
        match (expression(s, p), expression(t, q)) {
            (Ok((_, p1)), Ok((_, q1))) => {
                lemma_expect_agrees(s, p1, t, q1, SpecToken::Rparen);
            },
            _ => {},
        }
    }
}

/// Scanners that yield the same tokens agree on what follows `for`.
pub proof fn lemma_for_statement_agrees(s: Seq<u8>, p: int, t: Seq<u8>, q: int)
    requires
        same_tokens(s, p, t, q),
    ensures
        agree(s, for_statement(s, p), t, for_statement(t, q)),
    decreases remaining(s, p), 27int,
{
    lemma_expect_agrees(s, p, t, q, SpecToken::Lparen);
    lemma_token_progress(s, p);
    lemma_token_progress(t, q);
    match (expect_at(s, p, SpecToken::Lparen), expect_at(t, q, SpecToken::Lparen)) {
        (Ok(p1), Ok(q1)) => {
            lemma_for_initializer_agrees(s, p1, t, q1);
            lemma_for_initializer_progress(s, p1);
            lemma_for_initializer_progress(t, q1);
            match (for_initializer(s, p1), for_initializer(t, q1)) {
                (Ok((_, p2)), Ok((_, q2))) => {
                    lemma_for_condition_agrees(s, p2, t, q2);
                    lemma_for_condition_progress(s, p2);
                    lemma_for_condition_progress(t, q2);
                    match (for_condition(s, p2), for_condition(t, q2)) {
                        (Ok((_, p3)), Ok((_, q3))) => {
                            lemma_for_increment_agrees(s, p3, t, q3);
                            lemma_for_increment_progress(s, p3);
                            lemma_for_increment_progress(t, q3);
                            match (for_increment(s, p3), for_increment(t, q3)) {
                                (Ok((_, p4)), Ok((_, q4))) => {
                                    lemma_statement_agrees(s, p4, t, q4);
                                },
                                _ => {},
                            }
                        },
                        _ => {},
                    }
                },
                _ => {},
            }
        },
        _ => {},
    }
}

/// Scanners that yield the same tokens agree on what follows `print`.
pub proof fn lemma_print_statement_agrees(s: Seq<u8>, p: int, t: Seq<u8>, q: int)
    requires
        same_tokens(s, p, t, q),
    ensures
        agree(s, print_statement(s, p), t, print_statement(t, q)),
    decreases remaining(s, p), 25int,
{
    lemma_expression_agrees(s, p, t, q);
    match (expression(s, p), expression(t, q)) {
        (Ok((_, p1)), Ok((_, q1))) => {
            lemma_same_tokens_step(s, p1, t, q1);
        },
        _ => {},
    }
}

/// Scanners that yield the same tokens agree on what follows `return`.
pub proof fn lemma_return_statement_agrees(s: Seq<u8>, p: int, t: Seq<u8>, q: int)
    requires
        same_tokens(s, p, t, q),
    ensures
        agree(s, return_statement(s, p), t, return_statement(t, q)),
    decreases remaining(s, p), 25int,
{
    lemma_same_tokens_step(s, p, t, q);
    if !(upcoming_is(s, p, SpecToken::Semicolon) || upcoming_is(s, p, SpecToken::RSquirly)
        || upcoming_is(s, p, SpecToken::Eof)) {
        lemma_expression_agrees(s, p, t, q);
    }
}

/// Scanners that yield the same tokens parse the same declarations up to the
/// end of their texts.
pub proof fn lemma_program_from_agrees(s: Seq<u8>, p: int, t: Seq<u8>, q: int, seen: Seq<SpecStmt>)
    requires
        same_tokens(s, p, t, q),
    ensures
        program_from(s, p, seen) == program_from(t, q, seen),
    decreases remaining(s, p),
{
    lemma_same_tokens_step(s, p, t, q);
    lemma_token_progress(s, p);
    if !upcoming_is(s, p, SpecToken::Eof) {
        lemma_declaration_agrees(s, p, t, q);
        lemma_declaration_progress(s, p);
        lemma_declaration_progress(t, q);
        match (declaration(s, p), declaration(t, q)) {
            (Ok((statement, p1)), Ok((_, q1))) => {
                lemma_same_tokens_step(s, p1, t, q1);
                lemma_token_progress(s, p1);
                lemma_program_from_agrees(
                    s,
                    skip_if(s, p1, SpecToken::Semicolon),
                    t,
                    skip_if(t, q1, SpecToken::Semicolon),
                    seen.push(statement),
                );
            },
            _ => {},
        }
    }
}

/// The program that a text is depends on the tokens of the text alone: two
/// texts that yield the same tokens are the same program, or fail to be one
/// with the same error.
pub proof fn lemma_program_depends_on_tokens(s: Seq<u8>, t: Seq<u8>)
    requires
        same_tokens(s, 0, t, 0),
    ensures
        program(s) == program(t),
{
    lemma_program_from_agrees(s, 0, t, 0, Seq::empty());
}

} // verus!
