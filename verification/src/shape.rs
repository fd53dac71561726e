//! The shape of what the parser yields: no branch of an `if` is a bare
//! `let`, and no function declares, and no call passes, more than 255 names
//! or values.

use vstd::prelude::*;
use crate::ast::{SpecExpr, SpecLiteral, SpecStmt};
use crate::grammar::{
    after, arguments, arguments_from, assignment, binary, binary_rest, block_from, call,
    call_rest, condition, declaration, expect_at, expression, for_condition, for_increment,
    for_initializer, for_statement, function, function_decl, identifier, if_statement,
    lemma_token_progress, looseness, onward, operand, operator_at, parameters, parameters_from,
    peek, primary, print_statement, program, program_from, remaining, return_statement, skip_if,
    statement, tighter, unary, upcoming_is, var_decl, while_statement, Level, MAX_ARITY,
};
use crate::lexer::LexError;
use crate::token::SpecToken;

verus! {

/// Whether every statement of `statements` is well shaped.
pub open spec fn all_shaped(statements: Seq<SpecStmt>) -> bool {
    forall|i: int| 0 <= i < statements.len() ==> stmt_shaped(#[trigger] statements[i])
}

/// Whether an expression is well shaped: no call in it passes more than 255
/// arguments, and every function in it is well shaped.
pub open spec fn expr_shaped(expression: SpecExpr) -> bool
    decreases expression,
{
    match expression {
        SpecExpr::Variable(_) => true,
        SpecExpr::Grouping(inner) => expr_shaped(*inner),
        SpecExpr::Literal(literal) => match literal {
            SpecLiteral::Function { params, body, .. } => params.len() <= MAX_ARITY && (forall|
                i: int,
            | 0 <= i < body.len() ==> stmt_shaped(#[trigger] body[i])),
            _ => true,
        },
        SpecExpr::Assignement { value, .. } => expr_shaped(*value),
        SpecExpr::Unary { right, .. } => expr_shaped(*right),
        SpecExpr::Binary { left, right, .. } => expr_shaped(*left) && expr_shaped(*right),
        SpecExpr::Call { callee, arguments } => expr_shaped(*callee) && arguments.len()
            <= MAX_ARITY && (forall|i: int|
            0 <= i < arguments.len() ==> expr_shaped(#[trigger] arguments[i])),
    }
}

/// Whether a statement is well shaped: no branch of an `if` in it is a bare
/// `let`, no function in it declares more than 255 parameters, and every
/// expression in it is well shaped.
pub open spec fn stmt_shaped(statement: SpecStmt) -> bool
    decreases statement,
{
    match statement {
        SpecStmt::Let { expression, .. } => match expression {
            Some(initializer) => expr_shaped(initializer),
            None => true,
        },
        SpecStmt::If { condition, consequence, alternative } => expr_shaped(condition) && !(
        *consequence is Let) && stmt_shaped(*consequence) && match alternative {
            Some(otherwise) => !(*otherwise is Let) && stmt_shaped(*otherwise),
            None => true,
        },
        SpecStmt::While { condition, body } => expr_shaped(condition) && stmt_shaped(*body),
        SpecStmt::Block(statements) => forall|i: int|
            0 <= i < statements.len() ==> stmt_shaped(#[trigger] statements[i]),
        SpecStmt::Expression(expression) => expr_shaped(expression),
        SpecStmt::Print(expression) => expr_shaped(expression),
        SpecStmt::Function { parameters, body, .. } => parameters.len() <= MAX_ARITY && (forall|
            i: int,
        | 0 <= i < body.len() ==> stmt_shaped(#[trigger] body[i])),
        SpecStmt::Return(expression) => expr_shaped(expression),
    }
}

/// Parameters are 255 at most.
pub proof fn lemma_parameters_from_shaped(s: Seq<u8>, pos: int, seen: Seq<Seq<char>>)
    requires
        seen.len() <= MAX_ARITY,
    ensures
        parameters_from(s, pos, seen) matches Ok((names, _)) ==> names.len() <= MAX_ARITY,
    decreases remaining(s, pos),
{
    if seen.len() < MAX_ARITY {
        lemma_token_progress(s, pos);
        match identifier(s, pos) {
            Ok((name, p1)) => {
                if upcoming_is(s, p1, SpecToken::Comma) {
                    lemma_token_progress(s, p1);
                    lemma_parameters_from_shaped(s, after(s, p1), seen.push(name));
                }
            },
            Err(_) => {},
        }
    }
}

/// A primary expression is well shaped.
pub proof fn lemma_primary_shaped(s: Seq<u8>, pos: int)
    ensures
        primary(s, pos) matches Ok((parsed, _)) ==> expr_shaped(parsed),
    decreases remaining(s, pos), 5int,
{
    lemma_token_progress(s, pos);
    if peek(s, pos) == Ok::<SpecToken, LexError>(SpecToken::Lparen) {
        lemma_expression_shaped(s, after(s, pos));
    }
}

/// Arguments are well shaped, and 255 at most.
pub proof fn lemma_arguments_shaped(s: Seq<u8>, pos: int)
    ensures
        arguments(s, pos) matches Ok((values, _)) ==> values.len() <= MAX_ARITY && (forall|
            i: int,
        | 0 <= i < values.len() ==> expr_shaped(#[trigger] values[i])),
    decreases remaining(s, pos), 25int,
{
    if !upcoming_is(s, pos, SpecToken::Rparen) {
        lemma_arguments_from_shaped(s, pos, Seq::empty());
    }
}

/// Arguments are well shaped, and 255 at most.
pub proof fn lemma_arguments_from_shaped(s: Seq<u8>, pos: int, seen: Seq<SpecExpr>)
    requires
        seen.len() <= MAX_ARITY,
        forall|i: int| 0 <= i < seen.len() ==> expr_shaped(#[trigger] seen[i]),
    ensures
        arguments_from(s, pos, seen) matches Ok((values, _)) ==> values.len() <= MAX_ARITY
            && (forall|i: int| 0 <= i < values.len() ==> expr_shaped(#[trigger] values[i])),
    decreases remaining(s, pos), 24int,
{
    if seen.len() < MAX_ARITY {
        lemma_expression_shaped(s, pos);
        match expression(s, pos) {
            Ok((argument, p1)) => {
                let q = onward(pos, p1);
                if upcoming_is(s, q, SpecToken::Comma) {
                    lemma_token_progress(s, q);
                    lemma_arguments_from_shaped(s, after(s, q), seen.push(argument));
                }
            },
            Err(_) => {},
        }
    }
}

/// A call expression is well shaped.
pub proof fn lemma_call_shaped(s: Seq<u8>, pos: int)
    ensures
        call(s, pos) matches Ok((parsed, _)) ==> expr_shaped(parsed),
    decreases remaining(s, pos), 7int,
{
    lemma_primary_shaped(s, pos);
    match primary(s, pos) {
        Ok((callee, p1)) => {
            lemma_call_rest_shaped(s, onward(pos, p1), callee);
        },
        Err(_) => {},
    }
}

/// The calls of a well-shaped callee are well shaped.
pub proof fn lemma_call_rest_shaped(s: Seq<u8>, pos: int, callee: SpecExpr)
    requires
        expr_shaped(callee),
    ensures
        call_rest(s, pos, callee) matches Ok((parsed, _)) ==> expr_shaped(parsed),
    decreases remaining(s, pos), 6int,
{
    if upcoming_is(s, pos, SpecToken::Lparen) {
        lemma_token_progress(s, pos);
        lemma_arguments_shaped(s, after(s, pos));
        match arguments(s, after(s, pos)) {
            Ok((args, p2)) => {
                match expect_at(s, p2, SpecToken::Rparen) {
                    Ok(p3) => {
                        lemma_call_rest_shaped(
                            s,
                            onward(pos, p3),
                            SpecExpr::Call { callee: Box::new(callee), arguments: args },
                        );
                    },
                    Err(_) => {},
                }
            },
            Err(_) => {},
        }
    }
}

/// A unary expression is well shaped.
pub proof fn lemma_unary_shaped(s: Seq<u8>, pos: int)
    ensures
        unary(s, pos) matches Ok((parsed, _)) ==> expr_shaped(parsed),
    decreases remaining(s, pos), 8int,
{
    if upcoming_is(s, pos, SpecToken::Bang) || upcoming_is(s, pos, SpecToken::Minus) {
        lemma_token_progress(s, pos);
        lemma_unary_shaped(s, after(s, pos));
    } else {
        lemma_call_shaped(s, pos);
    }
}

/// An operand is well shaped.
pub proof fn lemma_operand_shaped(s: Seq<u8>, pos: int, level: Level)
    ensures
        operand(s, pos, level) matches Ok((parsed, _)) ==> expr_shaped(parsed),
    decreases remaining(s, pos), 10 + 2 * looseness(level),
{
    match tighter(level) {
        Some(inner) => lemma_binary_shaped(s, pos, inner),
        None => lemma_unary_shaped(s, pos),
    }
}

/// A binary expression is well shaped.
pub proof fn lemma_binary_shaped(s: Seq<u8>, pos: int, level: Level)
    ensures
        binary(s, pos, level) matches Ok((parsed, _)) ==> expr_shaped(parsed),
    decreases remaining(s, pos), 11 + 2 * looseness(level),
{
    lemma_operand_shaped(s, pos, level);
    match operand(s, pos, level) {
        Ok((left, p1)) => {
            lemma_binary_rest_shaped(s, onward(pos, p1), level, left);
        },
        Err(_) => {},
    }
}

/// What follows a well-shaped operand is well shaped.
pub proof fn lemma_binary_rest_shaped(s: Seq<u8>, pos: int, level: Level, left: SpecExpr)
    requires
        expr_shaped(left),
    ensures
        binary_rest(s, pos, level, left) matches Ok((parsed, _)) ==> expr_shaped(parsed),
    decreases remaining(s, pos), 9 + 2 * looseness(level),
{
    match operator_at(s, pos, level) {
        Some(operator) => {
            lemma_token_progress(s, pos);
            lemma_operand_shaped(s, after(s, pos), level);
            match operand(s, after(s, pos), level) {
                Ok((right, p2)) => {
                    lemma_binary_rest_shaped(
                        s,
                        onward(after(s, pos), p2),
                        level,
                        SpecExpr::Binary {
                            left: Box::new(left),
                            operator,
                            right: Box::new(right),
                        },
                    );
                },
                Err(_) => {},
            }
        },
        None => {},
    }
}

/// An assignment is well shaped.
pub proof fn lemma_assignment_shaped(s: Seq<u8>, pos: int)
    ensures
        assignment(s, pos) matches Ok((parsed, _)) ==> expr_shaped(parsed),
    decreases remaining(s, pos), 22int,
{
    lemma_binary_shaped(s, pos, Level::Or);
    match binary(s, pos, Level::Or) {
        Ok((_, p1)) => {
            let q = onward(pos, p1);
            if upcoming_is(s, q, SpecToken::Assign) {
                lemma_token_progress(s, q);
                lemma_assignment_shaped(s, after(s, q));
            }
        },
        Err(_) => {},
    }
}

/// An expression is well shaped.
pub proof fn lemma_expression_shaped(s: Seq<u8>, pos: int)
    ensures
        expression(s, pos) matches Ok((parsed, _)) ==> expr_shaped(parsed),
    decreases remaining(s, pos), 23int,
{
    if upcoming_is(s, pos, SpecToken::Function) {
        lemma_token_progress(s, pos);
        lemma_function_shaped(s, after(s, pos));
    } else {
        lemma_assignment_shaped(s, pos);
    }
}

/// The parameters of a function are 255 at most, and its body is well
/// shaped.
pub proof fn lemma_function_shaped(s: Seq<u8>, pos: int)
    ensures
        function(s, pos) matches Ok(((names, body), _)) ==> names.len() <= MAX_ARITY
            && all_shaped(body),
    decreases remaining(s, pos), 26int,
{
    lemma_token_progress(s, pos);
    match expect_at(s, pos, SpecToken::Lparen) {
        Ok(p1) => {
            lemma_parameters_from_shaped(s, p1, Seq::empty());
            match parameters(s, p1) {
                Ok((_, p2)) => {
                    match expect_at(s, p2, SpecToken::Rparen) {
                        Ok(p3) => {
                            match expect_at(s, p3, SpecToken::LSquirly) {
                                Ok(p4) => {
                                    lemma_block_from_shaped(s, onward(pos, p4), Seq::empty());
                                },
                                Err(_) => {},
                            }
                        },
                        Err(_) => {},
                    }
                },
                Err(_) => {},
            }
        },
        Err(_) => {},
    }
}

/// The declarations of a block are well shaped.
pub proof fn lemma_block_from_shaped(s: Seq<u8>, pos: int, seen: Seq<SpecStmt>)
    requires
        all_shaped(seen),
    ensures
        block_from(s, pos, seen) matches Ok((statements, _)) ==> all_shaped(statements),
    decreases remaining(s, pos), 32int,
{
    lemma_token_progress(s, pos);
    if !upcoming_is(s, pos, SpecToken::RSquirly) && !upcoming_is(s, pos, SpecToken::Eof) {
        lemma_declaration_shaped(s, pos);
        match declaration(s, pos) {
            Ok((parsed, p1)) => {
                lemma_token_progress(s, onward(pos, p1));
                lemma_block_from_shaped(
                    s,
                    skip_if(s, onward(pos, p1), SpecToken::Semicolon),
                    seen.push(parsed),
                );
            },
            Err(_) => {},
        }
    }
}

/// A declaration is well shaped.
pub proof fn lemma_declaration_shaped(s: Seq<u8>, pos: int)
    ensures
        declaration(s, pos) matches Ok((parsed, _)) ==> stmt_shaped(parsed),
    decreases remaining(s, pos), 31int,
{
    lemma_token_progress(s, pos);
    if upcoming_is(s, pos, SpecToken::Function) {
        lemma_function_decl_shaped(s, after(s, pos));
    } else if upcoming_is(s, pos, SpecToken::Let) {
        lemma_var_decl_shaped(s, after(s, pos));
    } else {
        lemma_statement_shaped(s, pos);
    }
}

/// The declaration of a function is well shaped.
pub proof fn lemma_function_decl_shaped(s: Seq<u8>, pos: int)
    ensures
        function_decl(s, pos) matches Ok((parsed, _)) ==> stmt_shaped(parsed),
    decreases remaining(s, pos), 27int,
{
    lemma_token_progress(s, pos);
    match identifier(s, pos) {
        Ok((_, p1)) => {
            lemma_function_shaped(s, p1);
        },
        Err(_) => {},
    }
}

/// A `let` is well shaped.
pub proof fn lemma_var_decl_shaped(s: Seq<u8>, pos: int)
    ensures
        var_decl(s, pos) matches Ok((parsed, _)) ==> stmt_shaped(parsed),
    decreases remaining(s, pos), 25int,
{
    lemma_token_progress(s, pos);
    match identifier(s, pos) {
        Ok((_, p1)) => {
            lemma_token_progress(s, p1);
            if upcoming_is(s, p1, SpecToken::Assign) {
                lemma_expression_shaped(s, after(s, p1));
            }
        },
        Err(_) => {},
    }
}

/// A statement is well shaped, and is no bare `let`.
pub proof fn lemma_statement_shaped(s: Seq<u8>, pos: int)
    ensures
        statement(s, pos) matches Ok((parsed, _)) ==> stmt_shaped(parsed) && !(parsed is Let),
    decreases remaining(s, pos), 30int,
{
    lemma_token_progress(s, pos);
    if upcoming_is(s, pos, SpecToken::If) {
        lemma_if_statement_shaped(s, after(s, pos));
    } else if upcoming_is(s, pos, SpecToken::LSquirly) {
        lemma_block_from_shaped(s, after(s, pos), Seq::empty());
    } else if upcoming_is(s, pos, SpecToken::While) {
        lemma_while_statement_shaped(s, after(s, pos));
    } else if upcoming_is(s, pos, SpecToken::For) {
        lemma_for_statement_shaped(s, after(s, pos));
    } else if upcoming_is(s, pos, SpecToken::Print) {
        lemma_print_statement_shaped(s, after(s, pos));
    } else if upcoming_is(s, pos, SpecToken::Return) {
        lemma_return_statement_shaped(s, after(s, pos));
    } else {
        lemma_expression_shaped(s, pos);
    }
}

/// A condition is well shaped.
pub proof fn lemma_condition_shaped(s: Seq<u8>, pos: int)
    ensures
        condition(s, pos) matches Ok((parsed, _)) ==> expr_shaped(parsed),
    decreases remaining(s, pos), 26int,
{
    lemma_expression_shaped(s, pos);
}

/// An `if` is well shaped: neither branch is a bare `let`.
pub proof fn lemma_if_statement_shaped(s: Seq<u8>, pos: int)
    ensures
        if_statement(s, pos) matches Ok((parsed, _)) ==> stmt_shaped(parsed) && parsed is If,
    decreases remaining(s, pos), 27int,
{
    lemma_token_progress(s, pos);
    match expect_at(s, pos, SpecToken::Lparen) {
        Ok(p0) => {
            lemma_condition_shaped(s, p0);
            match condition(s, p0) {
                Ok((_, p1)) => {
                    lemma_statement_shaped(s, onward(pos, p1));
                    match statement(s, onward(pos, p1)) {
                        Ok((_, p2)) => {
                            let q = onward(pos, p2);
                            if upcoming_is(s, q, SpecToken::Else) {
                                lemma_token_progress(s, q);
                                lemma_statement_shaped(s, after(s, q));
                            }
                        },
                        Err(_) => {},
                    }
                },
                Err(_) => {},
            }
        },
        Err(_) => {},
    }
}

/// A `while` is well shaped.
pub proof fn lemma_while_statement_shaped(s: Seq<u8>, pos: int)
    ensures
        while_statement(s, pos) matches Ok((parsed, _)) ==> stmt_shaped(parsed) && parsed is While,
    decreases remaining(s, pos), 27int,
{
    lemma_token_progress(s, pos);
    match expect_at(s, pos, SpecToken::Lparen) {
        Ok(p0) => {
            lemma_condition_shaped(s, p0);
            match condition(s, p0) {
                Ok((_, p1)) => {
                    lemma_statement_shaped(s, onward(pos, p1));
                },
                Err(_) => {},
            }
        },
        Err(_) => {},
    }
}

/// The initializer of a `for` is well shaped.
pub proof fn lemma_for_initializer_shaped(s: Seq<u8>, pos: int)
    ensures
        for_initializer(s, pos) matches Ok((Some(parsed), _)) ==> stmt_shaped(parsed),
    decreases remaining(s, pos), 26int,
{
    lemma_token_progress(s, pos);
    if upcoming_is(s, pos, SpecToken::Let) {
        lemma_var_decl_shaped(s, after(s, pos));
    } else if upcoming_is(s, pos, SpecToken::Semicolon) {
    } else {
        lemma_expression_shaped(s, pos);
    }
}

/// The condition of a `for` is well shaped.
pub proof fn lemma_for_condition_shaped(s: Seq<u8>, pos: int)
    ensures
        for_condition(s, pos) matches Ok((parsed, _)) ==> expr_shaped(parsed),
    decreases remaining(s, pos), 26int,
{
    if !upcoming_is(s, pos, SpecToken::Semicolon) {
        lemma_expression_shaped(s, pos);
    }
}

/// The increment of a `for` is well shaped.
pub proof fn lemma_for_increment_shaped(s: Seq<u8>, pos: int)
    ensures
        for_increment(s, pos) matches Ok((Some(parsed), _)) ==> expr_shaped(parsed),
    decreases remaining(s, pos), 26int,
{
    if !upcoming_is(s, pos, SpecToken::Rparen) {
        lemma_expression_shaped(s, pos);
    }
}

/// The loop that a `for` stands for is well shaped, and is a block or a
/// `while`.
pub proof fn lemma_for_statement_shaped(s: Seq<u8>, pos: int)
    ensures
        for_statement(s, pos) matches Ok((parsed, _)) ==> stmt_shaped(parsed) && (parsed is Block
            || parsed is While),
    decreases remaining(s, pos), 27int,
{
    lemma_token_progress(s, pos);
    match expect_at(s, pos, SpecToken::Lparen) {
        Ok(p1) => {
            lemma_for_initializer_shaped(s, p1);
            match for_initializer(s, p1) {
                Ok((initializer, p2)) => {
                    lemma_for_condition_shaped(s, onward(pos, p2));
                    match for_condition(s, onward(pos, p2)) {
                        Ok((condition, p3)) => {
                            lemma_for_increment_shaped(s, onward(pos, p3));
                            match for_increment(s, onward(pos, p3)) {
                                Ok((increment, p4)) => {
                                    lemma_statement_shaped(s, onward(pos, p4));
                                    match statement(s, onward(pos, p4)) {
                                        Ok((body, _)) => {
                                            lemma_desugared_for_shaped(
                                                initializer,
                                                condition,
                                                increment,
                                                body,
                                            );
                                        },
                                        Err(_) => {},
                                    }
                                },
                                Err(_) => {},
                            }
                        },
                        Err(_) => {},
                    }
                },
                Err(_) => {},
            }
        },
        Err(_) => {},
    }
}

/// The loop that a `for` with well-shaped parts stands for is well shaped.
pub proof fn lemma_desugared_for_shaped(
    initializer: Option<SpecStmt>,
    condition: SpecExpr,
    increment: Option<SpecExpr>,
    body: SpecStmt,
)
    requires
        initializer matches Some(first) ==> stmt_shaped(first),
        expr_shaped(condition),
        increment matches Some(step) ==> expr_shaped(step),
        stmt_shaped(body),
    ensures
        stmt_shaped(crate::grammar::desugared_for(initializer, condition, increment, body)),
        crate::grammar::desugared_for(initializer, condition, increment, body) is Block
            || crate::grammar::desugared_for(initializer, condition, increment, body) is While,
{
    let stepped = match increment {
        Some(step) => SpecStmt::Block(seq![body, SpecStmt::Expression(step)]),
        None => body,
    };
    match increment {
        Some(step) => {
            assert(stmt_shaped(SpecStmt::Expression(step)));
            assert(stmt_shaped(stepped));
        },
        None => {},
    }
    let repeated = SpecStmt::While { condition, body: Box::new(stepped) };
    assert(stmt_shaped(repeated));
    match initializer {
        Some(first) => {
            assert(stmt_shaped(SpecStmt::Block(seq![first, repeated])));
        },
        None => {},
    }
}

/// A `print` is well shaped.
pub proof fn lemma_print_statement_shaped(s: Seq<u8>, pos: int)
    ensures
        print_statement(s, pos) matches Ok((parsed, _)) ==> stmt_shaped(parsed) && parsed is Print,
    decreases remaining(s, pos), 25int,
{
    lemma_expression_shaped(s, pos);
}

/// A `return` is well shaped.
pub proof fn lemma_return_statement_shaped(s: Seq<u8>, pos: int)
    ensures
        return_statement(s, pos) matches Ok((parsed, _)) ==> stmt_shaped(parsed)
            && parsed is Return,
    decreases remaining(s, pos), 25int,
{
    if !(upcoming_is(s, pos, SpecToken::Semicolon) || upcoming_is(s, pos, SpecToken::RSquirly)
        || upcoming_is(s, pos, SpecToken::Eof)) {
        lemma_expression_shaped(s, pos);
    } else {
        assert(expr_shaped(SpecExpr::Literal(SpecLiteral::Null)));
    }
}

/// The declarations of a program are well shaped.
pub proof fn lemma_program_from_shaped(s: Seq<u8>, pos: int, seen: Seq<SpecStmt>)
    requires
        all_shaped(seen),
    ensures
        program_from(s, pos, seen) matches Ok(statements) ==> all_shaped(statements),
    decreases remaining(s, pos),
{
    lemma_token_progress(s, pos);
    if !upcoming_is(s, pos, SpecToken::Eof) {
        lemma_declaration_shaped(s, pos);
        match declaration(s, pos) {
            Ok((parsed, p1)) => {
                lemma_token_progress(s, onward(pos, p1));
                lemma_program_from_shaped(
                    s,
                    skip_if(s, onward(pos, p1), SpecToken::Semicolon),
                    seen.push(parsed),
                );
            },
            Err(_) => {},
        }
    }
}

/// Every program that the grammar yields is well shaped: nowhere in it is a
/// branch of an `if` a bare `let`, and nowhere does a function declare, or a
/// call pass, more than 255 names or values.
pub proof fn lemma_program_shaped(s: Seq<u8>)
    ensures
        program(s) matches Ok(statements) ==> all_shaped(statements),
{
    lemma_program_from_shaped(s, 0, Seq::empty());
}

} // verus!
