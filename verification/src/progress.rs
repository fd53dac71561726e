//! Parsing makes progress: whatever a grammar function parses ends after the
//! position where it started.
//!
//! The grammar functions recur at positions that earlier calls returned, and
//! say through [`onward`] that such a position lies further on. The lemmas
//! here prove it: in every place where a grammar function applies `onward`,
//! the second argument is greater than the first, and `onward` is the
//! identity.

use vstd::prelude::*;
use crate::ast::{SpecExpr, SpecStmt};
use crate::grammar::{
    after, arguments, arguments_from, assignment, binary, binary_rest, block_from, call,
    call_rest, condition, declaration, expect_at, expression, for_condition, for_increment,
    for_initializer, for_statement, function, function_decl, identifier, if_statement,
    lemma_token_progress, looseness, onward, operand, operator_at, parameters, parameters_from,
    peek, primary, print_statement, remaining, return_statement, statement,
    tighter, unary, upcoming_is, var_decl, while_statement, Level, SpecParseError, MAX_ARITY,
};
use crate::token::SpecToken;

verus! {

/// Whether what was parsed from `pos` on ends after `pos`.
pub open spec fn advances<T>(parsed: Result<(T, int), SpecParseError>, pos: int) -> bool {
    parsed matches Ok((_, end)) ==> pos < end
}

/// Whether what was parsed from `pos` on ends at `pos` or after it.
pub open spec fn keeps_on<T>(parsed: Result<(T, int), SpecParseError>, pos: int) -> bool {
    parsed matches Ok((_, end)) ==> pos <= end
}

/// A name ends after the position where it starts.
pub proof fn lemma_identifier_progress(s: Seq<u8>, pos: int)
    ensures
        advances(identifier(s, pos), pos),
{
    lemma_token_progress(s, pos);
}

/// An expected token ends after the position where it starts.
pub proof fn lemma_expect_progress(s: Seq<u8>, pos: int, token: SpecToken)
    requires
        token != SpecToken::Eof,
    ensures
        expect_at(s, pos, token) matches Ok(end) ==> pos < end,
{
    lemma_token_progress(s, pos);
}

/// Parameters end at or after the position where they start.
pub proof fn lemma_parameters_from_progress(s: Seq<u8>, pos: int, seen: Seq<Seq<char>>)
    ensures
        keeps_on(parameters_from(s, pos, seen), pos),
    decreases remaining(s, pos),
{
    if seen.len() < MAX_ARITY {
        lemma_token_progress(s, pos);
        match identifier(s, pos) {
            Ok((name, p1)) => {
                if upcoming_is(s, p1, SpecToken::Comma) {
                    lemma_token_progress(s, p1);
                    lemma_parameters_from_progress(s, after(s, p1), seen.push(name));
                }
            },
            Err(_) => {},
        }
    }
}

/// Parameters end at or after the position where they start.
pub proof fn lemma_parameters_progress(s: Seq<u8>, pos: int)
    ensures
        keeps_on(parameters(s, pos), pos),
{
    lemma_parameters_from_progress(s, pos, Seq::empty());
}

/// A primary expression ends after the position where it starts.
pub proof fn lemma_primary_progress(s: Seq<u8>, pos: int)
    ensures
        advances(primary(s, pos), pos),
    decreases remaining(s, pos), 5int,
{
    lemma_token_progress(s, pos);
    if peek(s, pos) == Ok::<SpecToken, crate::lexer::LexError>(SpecToken::Lparen) {
        lemma_expression_progress(s, after(s, pos));
        match expression(s, after(s, pos)) {
            Ok((_, p2)) => {
                lemma_expect_progress(s, p2, SpecToken::Rparen);
            },
            Err(_) => {},
        }
    }
}

/// Arguments end at or after the position where they start.
pub proof fn lemma_arguments_progress(s: Seq<u8>, pos: int)
    ensures
        keeps_on(arguments(s, pos), pos),
    decreases remaining(s, pos), 25int,
{
    if !upcoming_is(s, pos, SpecToken::Rparen) {
        lemma_arguments_from_progress(s, pos, Seq::empty());
    }
}

/// Arguments end at or after the position where they start.
pub proof fn lemma_arguments_from_progress(s: Seq<u8>, pos: int, seen: Seq<SpecExpr>)
    ensures
        keeps_on(arguments_from(s, pos, seen), pos),
    decreases remaining(s, pos), 24int,
{
    if seen.len() < MAX_ARITY {
        lemma_expression_progress(s, pos);
        match expression(s, pos) {
            Ok((argument, p1)) => {
                let q = onward(pos, p1);
                if upcoming_is(s, q, SpecToken::Comma) {
                    lemma_token_progress(s, q);
                    lemma_arguments_from_progress(s, after(s, q), seen.push(argument));
                }
            },
            Err(_) => {},
        }
    }
}

/// A call expression ends after the position where it starts.
pub proof fn lemma_call_progress(s: Seq<u8>, pos: int)
    ensures
        advances(call(s, pos), pos),
    decreases remaining(s, pos), 7int,
{
    lemma_primary_progress(s, pos);
    match primary(s, pos) {
        Ok((callee, p1)) => {
            lemma_call_rest_progress(s, onward(pos, p1), callee);
        },
        Err(_) => {},
    }
}

/// The calls of a callee end at or after the position where they start.
pub proof fn lemma_call_rest_progress(s: Seq<u8>, pos: int, callee: SpecExpr)
    ensures
        keeps_on(call_rest(s, pos, callee), pos),
    decreases remaining(s, pos), 6int,
{
    if upcoming_is(s, pos, SpecToken::Lparen) {
        lemma_token_progress(s, pos);
        lemma_arguments_progress(s, after(s, pos));
        match arguments(s, after(s, pos)) {
            Ok((args, p2)) => {
                lemma_expect_progress(s, p2, SpecToken::Rparen);
                match expect_at(s, p2, SpecToken::Rparen) {
                    Ok(p3) => {
                        lemma_call_rest_progress(
                            s,
                            onward(pos, p3),
                            SpecExpr::Call { callee: Box::new(callee), arguments: args },
                        );
                    },
                    Err(_) => {},
                }
            },
            Err(_) => {},
        }
    }
}

/// A unary expression ends after the position where it starts.
pub proof fn lemma_unary_progress(s: Seq<u8>, pos: int)
    ensures
        advances(unary(s, pos), pos),
    decreases remaining(s, pos), 8int,
{
    if upcoming_is(s, pos, SpecToken::Bang) || upcoming_is(s, pos, SpecToken::Minus) {
        lemma_token_progress(s, pos);
        lemma_unary_progress(s, after(s, pos));
    } else {
        lemma_call_progress(s, pos);
    }
}

/// An operand ends after the position where it starts.
pub proof fn lemma_operand_progress(s: Seq<u8>, pos: int, level: Level)
    ensures
        advances(operand(s, pos, level), pos),
    decreases remaining(s, pos), 10 + 2 * looseness(level),
{
    match tighter(level) {
        Some(inner) => lemma_binary_progress(s, pos, inner),
        None => lemma_unary_progress(s, pos),
    }
}

/// A binary expression ends after the position where it starts.
pub proof fn lemma_binary_progress(s: Seq<u8>, pos: int, level: Level)
    ensures
        advances(binary(s, pos, level), pos),
    decreases remaining(s, pos), 11 + 2 * looseness(level),
{
    lemma_operand_progress(s, pos, level);
    match operand(s, pos, level) {
        Ok((left, p1)) => {
            lemma_binary_rest_progress(s, onward(pos, p1), level, left);
        },
        Err(_) => {},
    }
}

/// What follows an operand ends at or after the position where it starts.
pub proof fn lemma_binary_rest_progress(s: Seq<u8>, pos: int, level: Level, left: SpecExpr)
    ensures
        keeps_on(binary_rest(s, pos, level, left), pos),
    decreases remaining(s, pos), 9 + 2 * looseness(level),
{
    match operator_at(s, pos, level) {
        Some(operator) => {
            lemma_token_progress(s, pos);
            lemma_operand_progress(s, after(s, pos), level);
            match operand(s, after(s, pos), level) {
                Ok((right, p2)) => {
                    lemma_binary_rest_progress(
                        s,
                        onward(after(s, pos), p2),
                        level,
                        SpecExpr::Binary {
                            left: Box::new(left),
                            operator,
                            right: Box::new(right),
                        },
                    );
                },
                Err(_) => {},
            }
        },
        None => {},
    }
}

/// An assignment ends after the position where it starts.
pub proof fn lemma_assignment_progress(s: Seq<u8>, pos: int)
    ensures
        advances(assignment(s, pos), pos),
    decreases remaining(s, pos), 22int,
{
    lemma_binary_progress(s, pos, Level::Or);
    match binary(s, pos, Level::Or) {
        Ok((_, p1)) => {
            let q = onward(pos, p1);
            if upcoming_is(s, q, SpecToken::Assign) {
                lemma_token_progress(s, q);
                lemma_assignment_progress(s, after(s, q));
            }
        },
        Err(_) => {},
    }
}

/// An expression ends after the position where it starts.
pub proof fn lemma_expression_progress(s: Seq<u8>, pos: int)
    ensures
        advances(expression(s, pos), pos),
    decreases remaining(s, pos), 23int,
{
    if upcoming_is(s, pos, SpecToken::Function) {
        lemma_token_progress(s, pos);
        lemma_function_progress(s, after(s, pos));
    } else {
        lemma_assignment_progress(s, pos);
    }
}

/// The parameters and the body of a function end after the position where
/// they start.
pub proof fn lemma_function_progress(s: Seq<u8>, pos: int)
    ensures
        advances(function(s, pos), pos),
    decreases remaining(s, pos), 26int,
{
    lemma_token_progress(s, pos);
    match expect_at(s, pos, SpecToken::Lparen) {
        Ok(p1) => {
            lemma_parameters_progress(s, p1);
            match parameters(s, p1) {
                Ok((_, p2)) => {
                    lemma_expect_progress(s, p2, SpecToken::Rparen);
                    match expect_at(s, p2, SpecToken::Rparen) {
                        Ok(p3) => {
                            lemma_expect_progress(s, p3, SpecToken::LSquirly);
                            match expect_at(s, p3, SpecToken::LSquirly) {
                                Ok(p4) => {
                                    lemma_block_from_progress(s, onward(pos, p4), Seq::empty());
                                },
                                Err(_) => {},
                            }
                        },
                        Err(_) => {},
                    }
                },
                Err(_) => {},
            }
        },
        Err(_) => {},
    }
}

/// The declarations of a block, with its closing brace, end after the
/// position where they start.
pub proof fn lemma_block_from_progress(s: Seq<u8>, pos: int, seen: Seq<SpecStmt>)
    ensures
        advances(block_from(s, pos, seen), pos),
    decreases remaining(s, pos), 32int,
{
    lemma_token_progress(s, pos);
    if !upcoming_is(s, pos, SpecToken::RSquirly) && !upcoming_is(s, pos, SpecToken::Eof) {
        lemma_declaration_progress(s, pos);
        match declaration(s, pos) {
            Ok((statement, p1)) => {
                lemma_token_progress(s, onward(pos, p1));
                lemma_block_from_progress(
                    s,
                    crate::grammar::skip_if(s, onward(pos, p1), SpecToken::Semicolon),
                    seen.push(statement),
                );
            },
            Err(_) => {},
        }
    }
}

/// A declaration ends after the position where it starts.
pub proof fn lemma_declaration_progress(s: Seq<u8>, pos: int)
    ensures
        advances(declaration(s, pos), pos),
    decreases remaining(s, pos), 31int,
{
    lemma_token_progress(s, pos);
    if upcoming_is(s, pos, SpecToken::Function) {
        lemma_function_decl_progress(s, after(s, pos));
    } else if upcoming_is(s, pos, SpecToken::Let) {
        lemma_var_decl_progress(s, after(s, pos));
    } else {
        lemma_statement_progress(s, pos);
    }
}

/// What follows `function` in a declaration ends after the position where it
/// starts.
pub proof fn lemma_function_decl_progress(s: Seq<u8>, pos: int)
    ensures
        advances(function_decl(s, pos), pos),
    decreases remaining(s, pos), 27int,
{
    lemma_token_progress(s, pos);
    match identifier(s, pos) {
        Ok((_, p1)) => {
            lemma_function_progress(s, p1);
        },
        Err(_) => {},
    }
}

/// What follows `let` ends after the position where it starts.
pub proof fn lemma_var_decl_progress(s: Seq<u8>, pos: int)
    ensures
        advances(var_decl(s, pos), pos),
    decreases remaining(s, pos), 25int,
{
    lemma_token_progress(s, pos);
    match identifier(s, pos) {
        Ok((_, p1)) => {
            lemma_token_progress(s, p1);
            if upcoming_is(s, p1, SpecToken::Assign) {
                lemma_expression_progress(s, after(s, p1));
                match expression(s, after(s, p1)) {
                    Ok((_, p2)) => {
                        lemma_token_progress(s, p2);
                    },
                    Err(_) => {},
                }
            }
        },
        Err(_) => {},
    }
}

/// A statement ends after the position where it starts.
pub proof fn lemma_statement_progress(s: Seq<u8>, pos: int)
    ensures
        advances(statement(s, pos), pos),
    decreases remaining(s, pos), 30int,
{
    lemma_token_progress(s, pos);
    if upcoming_is(s, pos, SpecToken::If) {
        lemma_if_statement_progress(s, after(s, pos));
    } else if upcoming_is(s, pos, SpecToken::LSquirly) {
        lemma_block_from_progress(s, after(s, pos), Seq::empty());
    } else if upcoming_is(s, pos, SpecToken::While) {
        lemma_while_statement_progress(s, after(s, pos));
    } else if upcoming_is(s, pos, SpecToken::For) {
        lemma_for_statement_progress(s, after(s, pos));
    } else if upcoming_is(s, pos, SpecToken::Print) {
        lemma_print_statement_progress(s, after(s, pos));
    } else if upcoming_is(s, pos, SpecToken::Return) {
        lemma_return_statement_progress(s, after(s, pos));
    } else {
        lemma_expression_progress(s, pos);
    }
}

/// A condition with its closing parenthesis ends after the position where it
/// starts.
pub proof fn lemma_condition_progress(s: Seq<u8>, pos: int)
    ensures
        advances(condition(s, pos), pos),
    decreases remaining(s, pos), 26int,
{
    lemma_expression_progress(s, pos);
    match expression(s, pos) {
        Ok((_, p1)) => {
            lemma_expect_progress(s, p1, SpecToken::Rparen);
        },
        Err(_) => {},
    }
}

/// What follows `if` ends after the position where it starts.
pub proof fn lemma_if_statement_progress(s: Seq<u8>, pos: int)
    ensures
        advances(if_statement(s, pos), pos),
    decreases remaining(s, pos), 27int,
{
    lemma_token_progress(s, pos);
    match expect_at(s, pos, SpecToken::Lparen) {
        Ok(p0) => {
            lemma_condition_progress(s, p0);
            match condition(s, p0) {
                Ok((_, p1)) => {
                    lemma_statement_progress(s, onward(pos, p1));
                    match statement(s, onward(pos, p1)) {
                        Ok((_, p2)) => {
                            let q = onward(pos, p2);
                            if upcoming_is(s, q, SpecToken::Else) {
                                lemma_token_progress(s, q);
                                lemma_statement_progress(s, after(s, q));
                            }
                        },
                        Err(_) => {},
                    }
                },
                Err(_) => {},
            }
        },
        Err(_) => {},
    }
}

/// What follows `while` ends after the position where it starts.
pub proof fn lemma_while_statement_progress(s: Seq<u8>, pos: int)
    ensures
        advances(while_statement(s, pos), pos),
    decreases remaining(s, pos), 27int,
{
    lemma_token_progress(s, pos);
    match expect_at(s, pos, SpecToken::Lparen) {
        Ok(p0) => {
            lemma_condition_progress(s, p0);
            match condition(s, p0) {
                Ok((_, p1)) => {
                    lemma_statement_progress(s, onward(pos, p1));
                },
                Err(_) => {},
            }
        },
        Err(_) => {},
    }
}

/// The initializer of a `for` ends after the position where it starts.
pub proof fn lemma_for_initializer_progress(s: Seq<u8>, pos: int)
    ensures
        advances(for_initializer(s, pos), pos),
    decreases remaining(s, pos), 26int,
{
    lemma_token_progress(s, pos);
    if upcoming_is(s, pos, SpecToken::Let) {
        lemma_var_decl_progress(s, after(s, pos));
    } else if upcoming_is(s, pos, SpecToken::Semicolon) {
    } else {
        lemma_expression_progress(s, pos);
        match expression(s, pos) {
            Ok((_, p1)) => {
                lemma_token_progress(s, p1);
            },
            Err(_) => {},
        }
    }
}

/// The condition of a `for` ends after the position where it starts.
pub proof fn lemma_for_condition_progress(s: Seq<u8>, pos: int)
    ensures
        advances(for_condition(s, pos), pos),
    decreases remaining(s, pos), 26int,
{
    lemma_token_progress(s, pos);
    if !upcoming_is(s, pos, SpecToken::Semicolon) {
        lemma_expression_progress(s, pos);
        match expression(s, pos) {
            Ok((_, p1)) => {
                lemma_expect_progress(s, p1, SpecToken::Semicolon);
            },
            Err(_) => {},
        }
    }
}

/// The increment of a `for` ends after the position where it starts.
pub proof fn lemma_for_increment_progress(s: Seq<u8>, pos: int)
    ensures
        advances(for_increment(s, pos), pos),
    decreases remaining(s, pos), 26int,
{
    lemma_token_progress(s, pos);
    if !upcoming_is(s, pos, SpecToken::Rparen) {
        lemma_expression_progress(s, pos);
        match expression(s, pos) {
            Ok((_, p1)) => {
                lemma_expect_progress(s, p1, SpecToken::Rparen);
            },
            Err(_) => {},
        }
    }
}

/// What follows `for` ends after the position where it starts.
pub proof fn lemma_for_statement_progress(s: Seq<u8>, pos: int)
    ensures
        advances(for_statement(s, pos), pos),
    decreases remaining(s, pos), 27int,
{
    lemma_token_progress(s, pos);
    match expect_at(s, pos, SpecToken::Lparen) {
        Ok(p1) => {
            lemma_for_initializer_progress(s, p1);
            match for_initializer(s, p1) {
                Ok((_, p2)) => {
                    lemma_for_condition_progress(s, onward(pos, p2));
                    match for_condition(s, onward(pos, p2)) {
                        Ok((_, p3)) => {
                            lemma_for_increment_progress(s, onward(pos, p3));
                            match for_increment(s, onward(pos, p3)) {
                                Ok((_, p4)) => {
                                    lemma_statement_progress(s, onward(pos, p4));
                                },
                                Err(_) => {},
                            }
                        },
                        Err(_) => {},
                    }
                },
                Err(_) => {},
            }
        },
        Err(_) => {},
    }
}

/// What follows `print` ends after the position where it starts.
pub proof fn lemma_print_statement_progress(s: Seq<u8>, pos: int)
    ensures
        advances(print_statement(s, pos), pos),
    decreases remaining(s, pos), 25int,
{
    lemma_expression_progress(s, pos);
    match expression(s, pos) {
        Ok((_, p1)) => {
            lemma_token_progress(s, p1);
        },
        Err(_) => {},
    }
}

/// What follows `return` ends at or after the position where it starts.
pub proof fn lemma_return_statement_progress(s: Seq<u8>, pos: int)
    ensures
        keeps_on(return_statement(s, pos), pos),
    decreases remaining(s, pos), 25int,
{
    if !(upcoming_is(s, pos, SpecToken::Semicolon) || upcoming_is(s, pos, SpecToken::RSquirly)
        || upcoming_is(s, pos, SpecToken::Eof)) {
        lemma_expression_progress(s, pos);
    }
}

} // verus!
