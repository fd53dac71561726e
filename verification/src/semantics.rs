//! What a program means: the value of an expression and the effect of a
//! statement, as functions of the state of the run.
//!
//! Evaluation is bounded by `fuel`: a call of a function of the program runs
//! its body with one unit less, and so does every further round of a `while`
//! loop. With no fuel left the evaluation stops with `OutOfFuel`.

use vstd::prelude::*;
use crate::ast::{SpecExpr, SpecLiteral, SpecStmt};
use crate::environment::{assigned, defined, enclosed, lookup, SpecScope};
use crate::number::number_of_text;
use crate::value::{
    binary_value, callable_parameters, truthy, unary_value, SpecCallable, SpecRuntimeError,
    SpecValue,
};

verus! {

/// The state of a run.
pub struct Machine {
    /// The scopes.
    pub scopes: Seq<SpecScope>,
    /// The values that the program has printed, in order.
    pub output: Seq<SpecValue>,
    /// The answers of the host to the calls of host functions, in the order
    /// of the calls.
    pub answers: Seq<SpecValue>,
    /// How many calls of host functions the program has made.
    pub answered: nat,
}

/// How a statement ended: normally, or with a `return` that ends the call
/// of the function in which it stands.
pub enum SpecFlow {
    Normal,
    Return(SpecValue),
}

/// The outcome of an evaluation and the state after it.
pub type Evaluated = (Result<SpecValue, SpecRuntimeError>, Machine);

/// The outcome of the evaluation of some expressions and the state after it.
pub type EvaluatedAll = (Result<Seq<SpecValue>, SpecRuntimeError>, Machine);

/// The outcome of an execution and the state after it.
pub type Executed = (Result<SpecFlow, SpecRuntimeError>, Machine);

/// The value of a literal in the scope `scope`: a number literal is read from
/// its decimal text, and a function literal closes over `scope`.
pub open spec fn literal_value(literal: SpecLiteral, scope: nat) -> Result<
    SpecValue,
    SpecRuntimeError,
> {
    match literal {
        SpecLiteral::String(text) => Ok(SpecValue::String(text)),
        SpecLiteral::Number(text) => match number_of_text(text) {
            Some(bits) => Ok(SpecValue::Number(bits)),
            None => Err(SpecRuntimeError::InvalidNumber(text)),
        },
        SpecLiteral::Bool(b) => Ok(SpecValue::Bool(b)),
        SpecLiteral::Null => Ok(SpecValue::Null),
        SpecLiteral::Function { ident, params, body } => Ok(
            SpecValue::Function(
                SpecCallable::Js { name: ident, parameters: params, body, closure: scope },
            ),
        ),
    }
}

/// The scopes after the first `count` of `parameters` have been bound, in
/// `scope`, to the arguments at their places.
pub open spec fn bound(
    scopes: Seq<SpecScope>,
    scope: nat,
    parameters: Seq<Seq<char>>,
    arguments: Seq<SpecValue>,
    count: nat,
) -> Seq<SpecScope>
    decreases count,
{
    if count == 0 {
        scopes
    } else {
        defined(
            bound(scopes, scope, parameters, arguments, (count - 1) as nat),
            scope,
            parameters[count - 1],
            arguments[count - 1],
        )
    }
}

/// The scopes at the start of a call: one more scope, which the scope
/// `closure` of the called function encloses, and which binds the parameters
/// to the arguments.
pub open spec fn entered(
    scopes: Seq<SpecScope>,
    closure: nat,
    parameters: Seq<Seq<char>>,
    arguments: Seq<SpecValue>,
) -> Seq<SpecScope> {
    bound(enclosed(scopes, closure), scopes.len(), parameters, arguments, parameters.len())
}

/// The call of the host function `name`: its value is the next answer of the
/// host; where the host has given no answer for this call yet, the call is
/// pending.
pub open spec fn native_call(name: Seq<char>, arguments: Seq<SpecValue>, m: Machine) -> Evaluated {
    if m.answered < m.answers.len() {
        (
            Ok(m.answers[m.answered as int]),
            Machine { answered: m.answered + 1, ..m },
        )
    } else {
        (Err(SpecRuntimeError::NativePending { name, arguments }), m)
    }
}

/// What a call returns whose body ended with `flow`: the returned value, or
/// `null` where the body ended without a `return`.
pub open spec fn returned(flow: SpecFlow) -> SpecValue {
    match flow {
        SpecFlow::Return(value) => value,
        SpecFlow::Normal => SpecValue::Null,
    }
}

/// The outcome of a call whose body had the outcome `body`.
pub open spec fn finished(body: Executed) -> Evaluated {
    match body.0 {
        Ok(flow) => (Ok(returned(flow)), body.1),
        Err(error) => (Err(error), body.1),
    }
}

/// The value of `expression` in the scope `scope`, and the state after its
/// evaluation.
pub open spec fn eval(expression: SpecExpr, scope: nat, m: Machine, fuel: nat) -> Evaluated
    decreases fuel, expression, 0nat,
{
    match expression {
        SpecExpr::Variable(name) => match lookup(m.scopes, scope, name) {
            Some(value) => (Ok(value), m),
            None => (Err(SpecRuntimeError::UndefinedVariable(name)), m),
        },
        SpecExpr::Grouping(inner) => eval(*inner, scope, m, fuel),
        SpecExpr::Literal(literal) => (literal_value(literal, scope), m),
        SpecExpr::Assignement { ident, value } => {
            let (r, m1) = eval(*value, scope, m, fuel);
            match r {
                Ok(v) => match assigned(m1.scopes, scope, ident, v) {
                    Some(scopes) => (Ok(v), Machine { scopes, ..m1 }),
                    None => (Err(SpecRuntimeError::UndefinedVariable(ident)), m1),
                },
                Err(error) => (Err(error), m1),
            }
        },
        SpecExpr::Unary { operator, right } => {
            let (r, m1) = eval(*right, scope, m, fuel);
            match r {
                Ok(v) => (unary_value(operator, v), m1),
                Err(error) => (Err(error), m1),
            }
        },
        SpecExpr::Binary { left, operator, right } => {
            let (r1, m1) = eval(*left, scope, m, fuel);
            match r1 {
                Ok(a) => {
                    let (r2, m2) = eval(*right, scope, m1, fuel);
                    match r2 {
                        Ok(b) => (binary_value(operator, a, b), m2),
                        Err(error) => (Err(error), m2),
                    }
                },
                Err(error) => (Err(error), m1),
            }
        },
        SpecExpr::Call { callee, arguments } => {
            let (r1, m1) = eval(*callee, scope, m, fuel);
            match r1 {
                Ok(SpecValue::Function(function)) => {
                    let (r2, m2) = eval_all(arguments, Seq::empty(), scope, m1, fuel);
                    match r2 {
                        Ok(values) => {
                            if values.len() != callable_parameters(function).len() {
                                (
                                    Err(
                                        SpecRuntimeError::ArityMismatch {
                                            expected: callable_parameters(function).len(),
                                            found: values.len(),
                                        },
                                    ),
                                    m2,
                                )
                            } else {
                                match function {
                                    SpecCallable::Native { name, .. } => native_call(
                                        name,
                                        values,
                                        m2,
                                    ),
                                    SpecCallable::Js { parameters, body, closure, .. } => {
                                        if closure >= m2.scopes.len() {
                                            (Err(SpecRuntimeError::InvalidClosure), m2)
                                        } else if fuel == 0 {
                                            (Err(SpecRuntimeError::OutOfFuel), m2)
                                        } else {
                                            let m3 = Machine {
                                                scopes: entered(
                                                    m2.scopes,
                                                    closure,
                                                    parameters,
                                                    values,
                                                ),
                                                ..m2
                                            };
                                            finished(
                                                exec_all(
                                                    body,
                                                    0,
                                                    m2.scopes.len(),
                                                    m3,
                                                    (fuel - 1) as nat,
                                                ),
                                            )
                                        }
                                    },
                                }
                            }
                        },
                        Err(error) => (Err(error), m2),
                    }
                },
                Ok(_) => (Err(SpecRuntimeError::NotCallable), m1),
                Err(error) => (Err(error), m1),
            }
        },
    }
}

/// The values of the expressions of `expressions` from the place
/// `seen.len()` on, after those of `seen`, evaluated from left to right.
pub open spec fn eval_all(
    expressions: Seq<SpecExpr>,
    seen: Seq<SpecValue>,
    scope: nat,
    m: Machine,
    fuel: nat,
) -> EvaluatedAll
    decreases fuel, expressions, expressions.len() - seen.len(),
{
    if seen.len() >= expressions.len() {
        (Ok(seen), m)
    } else {
        let (r, m1) = eval(expressions[seen.len() as int], scope, m, fuel);
        match r {
            Ok(value) => eval_all(expressions, seen.push(value), scope, m1, fuel),
            Err(error) => (Err(error), m1),
        }
    }
}

/// The effect of `statement` in the scope `scope`.
pub open spec fn exec(statement: SpecStmt, scope: nat, m: Machine, fuel: nat) -> Executed
    decreases fuel, statement, 0nat,
{
    match statement {
        SpecStmt::Let { ident, expression } => match expression {
            Some(initializer) => {
                let (r, m1) = eval(initializer, scope, m, fuel);
                match r {
                    Ok(value) => (
                        Ok(SpecFlow::Normal),
                        Machine { scopes: defined(m1.scopes, scope, ident, value), ..m1 },
                    ),
                    Err(error) => (Err(error), m1),
                }
            },
            None => (
                Ok(SpecFlow::Normal),
                Machine { scopes: defined(m.scopes, scope, ident, SpecValue::Null), ..m },
            ),
        },
        SpecStmt::If { condition, consequence, alternative } => {
            let (r, m1) = eval(condition, scope, m, fuel);
            match r {
                Ok(value) => if truthy(value) {
                    exec(*consequence, scope, m1, fuel)
                } else {
                    match alternative {
                        Some(otherwise) => exec(*otherwise, scope, m1, fuel),
                        None => (Ok(SpecFlow::Normal), m1),
                    }
                },
                Err(error) => (Err(error), m1),
            }
        },
        SpecStmt::While { condition, body } => {
            let (r, m1) = eval(condition, scope, m, fuel);
            match r {
                Ok(value) => if truthy(value) {
                    let (r2, m2) = exec(*body, scope, m1, fuel);
                    match r2 {
                        Ok(SpecFlow::Normal) => if fuel == 0 {
                            (Err(SpecRuntimeError::OutOfFuel), m2)
                        } else {
                            exec(statement, scope, m2, (fuel - 1) as nat)
                        },
                        Ok(SpecFlow::Return(value)) => (Ok(SpecFlow::Return(value)), m2),
                        Err(error) => (Err(error), m2),
                    }
                } else {
                    (Ok(SpecFlow::Normal), m1)
                },
                Err(error) => (Err(error), m1),
            }
        },
        SpecStmt::Block(statements) => exec_all(
            statements,
            0,
            m.scopes.len(),
            Machine { scopes: enclosed(m.scopes, scope), ..m },
            fuel,
        ),
        SpecStmt::Expression(expression) => {
            let (r, m1) = eval(expression, scope, m, fuel);
            match r {
                Ok(_) => (Ok(SpecFlow::Normal), m1),
                Err(error) => (Err(error), m1),
            }
        },
        SpecStmt::Print(expression) => {
            let (r, m1) = eval(expression, scope, m, fuel);
            match r {
                Ok(value) => (
                    Ok(SpecFlow::Normal),
                    Machine { output: m1.output.push(value), ..m1 },
                ),
                Err(error) => (Err(error), m1),
            }
        },
        SpecStmt::Function { ident, parameters, body } => (
            Ok(SpecFlow::Normal),
            Machine {
                scopes: defined(
                    m.scopes,
                    scope,
                    ident,
                    SpecValue::Function(
                        SpecCallable::Js { name: Some(ident), parameters, body, closure: scope },
                    ),
                ),
                ..m
            },
        ),
        SpecStmt::Return(expression) => {
            let (r, m1) = eval(expression, scope, m, fuel);
            match r {
                Ok(value) => (Ok(SpecFlow::Return(value)), m1),
                Err(error) => (Err(error), m1),
            }
        },
    }
}

/// The effect of the statements of `statements` from the place `from` on, one
/// after the other in the scope `scope`, up to the first `return` or error.
pub open spec fn exec_all(statements: Seq<SpecStmt>, from: nat, scope: nat, m: Machine, fuel: nat)
    -> Executed
    decreases fuel, statements, statements.len() - from,
{
    if from >= statements.len() {
        (Ok(SpecFlow::Normal), m)
    } else {
        let (r, m1) = exec(statements[from as int], scope, m, fuel);
        match r {
            Ok(SpecFlow::Normal) => exec_all(statements, from + 1, scope, m1, fuel),
            Ok(SpecFlow::Return(value)) => (Ok(SpecFlow::Return(value)), m1),
            Err(error) => (Err(error), m1),
        }
    }
}

/// The effect of a program: its statements one after the other in the global
/// scope. A `return` at the top level ends the statement in which it stands,
/// not the program.
pub open spec fn run_from(statements: Seq<SpecStmt>, from: nat, m: Machine, fuel: nat) -> (
    Result<(), SpecRuntimeError>,
    Machine,
)
    decreases statements.len() - from,
{
    if from >= statements.len() {
        (Ok(()), m)
    } else {
        let (r, m1) = exec(statements[from as int], 0, m, fuel);
        match r {
            Ok(_) => run_from(statements, from + 1, m1, fuel),
            Err(error) => (Err(error), m1),
        }
    }
}

/// What a call does once the callee and the arguments are there.
pub open spec fn applied(function: SpecCallable, values: Seq<SpecValue>, m: Machine, fuel: nat)
    -> (Result<SpecValue, SpecRuntimeError>, Machine) {
    if values.len() != callable_parameters(function).len() {
        (
            Err(
                SpecRuntimeError::ArityMismatch {
                    expected: callable_parameters(function).len(),
                    found: values.len(),
                },
            ),
            m,
        )
    } else {
        match function {
            SpecCallable::Native { name, .. } => native_call(name, values, m),
            SpecCallable::Js { parameters, body, closure, .. } => {
                if closure >= m.scopes.len() {
                    (Err(SpecRuntimeError::InvalidClosure), m)
                } else if fuel == 0 {
                    (Err(SpecRuntimeError::OutOfFuel), m)
                } else {
                    finished(
                        exec_all(
                            body,
                            0,
                            m.scopes.len(),
                            Machine {
                                scopes: entered(m.scopes, closure, parameters, values),
                                ..m
                            },
                            (fuel - 1) as nat,
                        ),
                    )
                }
            },
        }
    }
}

/// A call is the evaluation of the callee, which has to be a function, then
/// of the arguments, and then what [`applied`] says.
pub proof fn lemma_call_is_applied(
    callee: SpecExpr,
    arguments: Seq<SpecExpr>,
    scope: nat,
    m: Machine,
    fuel: nat,
)
    ensures
        eval(SpecExpr::Call { callee: Box::new(callee), arguments }, scope, m, fuel) == {
            let (r1, m1) = eval(callee, scope, m, fuel);
            match r1 {
                Ok(SpecValue::Function(function)) => {
                    let (r2, m2) = eval_all(arguments, Seq::empty(), scope, m1, fuel);
                    match r2 {
                        Ok(values) => applied(function, values, m2, fuel),
                        Err(error) => (Err(error), m2),
                    }
                },
                Ok(_) => (Err(SpecRuntimeError::NotCallable), m1),
                Err(error) => (Err(error), m1),
            }
        },
{
}

/// A function is called with as many arguments as it declares parameters,
/// or not at all: with any other number the call fails, and changes
/// nothing.
pub proof fn lemma_call_needs_matching_arity(
    function: SpecCallable,
    values: Seq<SpecValue>,
    m: Machine,
    fuel: nat,
)
    requires
        values.len() != callable_parameters(function).len(),
    ensures
        applied(function, values, m, fuel) == (
            Err::<SpecValue, SpecRuntimeError>(
                SpecRuntimeError::ArityMismatch {
                    expected: callable_parameters(function).len(),
                    found: values.len(),
                },
            ),
            m,
        ),
{
}

/// Whether an evaluation ended for want of fuel.
pub open spec fn out_of_fuel<T>(outcome: Result<T, SpecRuntimeError>) -> bool {
    outcome == Err::<T, SpecRuntimeError>(SpecRuntimeError::OutOfFuel)
}

/// Fuel decides nothing but whether an evaluation is cut short: an
/// evaluation that does not end for want of fuel has the same outcome, and
/// leaves the same state, with any larger amount of fuel.
pub proof fn lemma_eval_with_more_fuel(
    expression: SpecExpr,
    scope: nat,
    m: Machine,
    fuel: nat,
    more: nat,
)
    requires
        fuel <= more,
        !out_of_fuel(eval(expression, scope, m, fuel).0),
    ensures
        eval(expression, scope, m, more) == eval(expression, scope, m, fuel),
    decreases fuel, expression, 0nat,
{
    match expression {
        SpecExpr::Variable(_) => {},
        SpecExpr::Grouping(inner) => {
            lemma_eval_with_more_fuel(*inner, scope, m, fuel, more);
        },
        SpecExpr::Literal(_) => {},
        SpecExpr::Assignement { value, .. } => {
            lemma_eval_with_more_fuel(*value, scope, m, fuel, more);
        },
        SpecExpr::Unary { right, .. } => {
            lemma_eval_with_more_fuel(*right, scope, m, fuel, more);
        },
        SpecExpr::Binary { left, right, .. } => {
            lemma_eval_with_more_fuel(*left, scope, m, fuel, more);
            let (r1, m1) = eval(*left, scope, m, fuel);
            if r1 is Ok {
                lemma_eval_with_more_fuel(*right, scope, m1, fuel, more);
            }
        },
        SpecExpr::Call { callee, arguments } => {
            lemma_eval_with_more_fuel(*callee, scope, m, fuel, more);
            let (r1, m1) = eval(*callee, scope, m, fuel);
            match r1 {
                Ok(SpecValue::Function(function)) => {
                    lemma_eval_all_with_more_fuel(arguments, Seq::empty(), scope, m1, fuel, more);
                    let (r2, m2) = eval_all(arguments, Seq::empty(), scope, m1, fuel);
                    match r2 {
                        Ok(values) => {
                            if values.len() == callable_parameters(function).len() {
                                match function {
                                    SpecCallable::Native { .. } => {},
                                    SpecCallable::Js { parameters, body, closure, .. } => {
                                        if closure < m2.scopes.len() && fuel > 0 {
                                            let m3 = Machine {
                                                scopes: entered(
                                                    m2.scopes,
                                                    closure,
                                                    parameters,
                                                    values,
                                                ),
                                                ..m2
                                            };
                                            lemma_exec_all_with_more_fuel(
                                                body,
                                                0,
                                                m2.scopes.len(),
                                                m3,
                                                (fuel - 1) as nat,
                                                (more - 1) as nat,
                                            );
                                        }
                                    },
                                }
                            }
                        },
                        Err(_) => {},
                    }
                },
                _ => {},
            }
        },
    }
}

/// More fuel changes no evaluation of several expressions that does not end
/// for want of fuel.
pub proof fn lemma_eval_all_with_more_fuel(
    expressions: Seq<SpecExpr>,
    seen: Seq<SpecValue>,
    scope: nat,
    m: Machine,
    fuel: nat,
    more: nat,
)
    requires
        fuel <= more,
        !out_of_fuel(eval_all(expressions, seen, scope, m, fuel).0),
    ensures
        eval_all(expressions, seen, scope, m, more) == eval_all(expressions, seen, scope, m, fuel),
    decreases fuel, expressions, expressions.len() - seen.len(),
{
    if seen.len() < expressions.len() {
        lemma_eval_with_more_fuel(expressions[seen.len() as int], scope, m, fuel, more);
        let (r, m1) = eval(expressions[seen.len() as int], scope, m, fuel);
        match r {
            Ok(value) => {
                lemma_eval_all_with_more_fuel(
                    expressions,
                    seen.push(value),
                    scope,
                    m1,
                    fuel,
                    more,
                );
            },
            Err(_) => {},
        }
    }
}

/// More fuel changes no execution that does not end for want of fuel.
pub proof fn lemma_exec_with_more_fuel(
    statement: SpecStmt,
    scope: nat,
    m: Machine,
    fuel: nat,
    more: nat,
)
    requires
        fuel <= more,
        !out_of_fuel(exec(statement, scope, m, fuel).0),
    ensures
        exec(statement, scope, m, more) == exec(statement, scope, m, fuel),
    decreases fuel, statement, 0nat,
{
    match statement {
        SpecStmt::Let { expression, .. } => {
            match expression {
                Some(initializer) => {
                    lemma_eval_with_more_fuel(initializer, scope, m, fuel, more);
                },
                None => {},
            }
        },
        SpecStmt::If { condition, consequence, alternative } => {
            lemma_eval_with_more_fuel(condition, scope, m, fuel, more);
            let (r, m1) = eval(condition, scope, m, fuel);
            match r {
                Ok(value) => {
                    if truthy(value) {
                        lemma_exec_with_more_fuel(*consequence, scope, m1, fuel, more);
                    } else {
                        match alternative {
                            Some(otherwise) => {
                                lemma_exec_with_more_fuel(*otherwise, scope, m1, fuel, more);
                            },
                            None => {},
                        }
                    }
                },
                Err(_) => {},
            }
        },
        SpecStmt::While { condition, body } => {
            lemma_eval_with_more_fuel(condition, scope, m, fuel, more);
            let (r, m1) = eval(condition, scope, m, fuel);
            match r {
                Ok(value) => {
                    if truthy(value) {
                        lemma_exec_with_more_fuel(*body, scope, m1, fuel, more);
                        let (r2, m2) = exec(*body, scope, m1, fuel);
                        match r2 {
                            Ok(SpecFlow::Normal) => {
                                if fuel > 0 {
                                    lemma_exec_with_more_fuel(
                                        statement,
                                        scope,
                                        m2,
                                        (fuel - 1) as nat,
                                        (more - 1) as nat,
                                    );
                                }
                            },
                            _ => {},
                        }
                    }
                },
                Err(_) => {},
            }
        },
        SpecStmt::Block(statements) => {
            lemma_exec_all_with_more_fuel(
                statements,
                0,
                m.scopes.len(),
                Machine { scopes: enclosed(m.scopes, scope), ..m },
                fuel,
                more,
            );
        },
        SpecStmt::Expression(expression) => {
            lemma_eval_with_more_fuel(expression, scope, m, fuel, more);
        },
        SpecStmt::Print(expression) => {
            lemma_eval_with_more_fuel(expression, scope, m, fuel, more);
        },
        SpecStmt::Function { .. } => {},
        SpecStmt::Return(expression) => {
            lemma_eval_with_more_fuel(expression, scope, m, fuel, more);
        },
    }
}

/// More fuel changes no execution of several statements that does not end
/// for want of fuel.
pub proof fn lemma_exec_all_with_more_fuel(
    statements: Seq<SpecStmt>,
    from: nat,
    scope: nat,
    m: Machine,
    fuel: nat,
    more: nat,
)
    requires
        fuel <= more,
        !out_of_fuel(exec_all(statements, from, scope, m, fuel).0),
    ensures
        exec_all(statements, from, scope, m, more) == exec_all(statements, from, scope, m, fuel),
    decreases fuel, statements, statements.len() - from,
{
    if from < statements.len() {
        lemma_exec_with_more_fuel(statements[from as int], scope, m, fuel, more);
        let (r, m1) = exec(statements[from as int], scope, m, fuel);
        match r {
            Ok(SpecFlow::Normal) => {
                lemma_exec_all_with_more_fuel(statements, from + 1, scope, m1, fuel, more);
            },
            _ => {},
        }
    }
}

/// More fuel changes no run of a program that does not end for want of fuel.
pub proof fn lemma_run_with_more_fuel(
    statements: Seq<SpecStmt>,
    from: nat,
    m: Machine,
    fuel: nat,
    more: nat,
)
    requires
        fuel <= more,
        !out_of_fuel(run_from(statements, from, m, fuel).0),
    ensures
        run_from(statements, from, m, more) == run_from(statements, from, m, fuel),
    decreases statements.len() - from,
{
    if from < statements.len() {
        lemma_exec_with_more_fuel(statements[from as int], 0, m, fuel, more);
        let (r, m1) = exec(statements[from as int], 0, m, fuel);
        match r {
            Ok(_) => {
                lemma_run_with_more_fuel(statements, from + 1, m1, fuel, more);
            },
            Err(_) => {},
        }
    }
}

/// A `return` ends the statements around it: where a statement of a sequence
/// returns, the sequence returns the same value and leaves the state as that
/// statement left it, and no later statement of the sequence is run.
pub proof fn lemma_return_ends_the_sequence(
    statements: Seq<SpecStmt>,
    from: nat,
    scope: nat,
    m: Machine,
    fuel: nat,
)
    requires
        from < statements.len(),
        exec(statements[from as int], scope, m, fuel).0 is Ok,
        exec(statements[from as int], scope, m, fuel).0->Ok_0 is Return,
    ensures
        exec_all(statements, from, scope, m, fuel) == exec(statements[from as int], scope, m, fuel),
{
}

/// A `return` in a branch of an `if` is a `return` of the `if`.
pub proof fn lemma_return_leaves_if(
    condition: SpecExpr,
    consequence: SpecStmt,
    alternative: Option<Box<SpecStmt>>,
    scope: nat,
    m: Machine,
    fuel: nat,
)
    requires
        eval(condition, scope, m, fuel).0 matches Ok(value) && truthy(value),
    ensures
        exec(
            SpecStmt::If { condition, consequence: Box::new(consequence), alternative },
            scope,
            m,
            fuel,
        ) == exec(consequence, scope, eval(condition, scope, m, fuel).1, fuel),
{
}

/// A `return` in the body of a `while` is a `return` of the `while`: the
/// condition is not evaluated again.
pub proof fn lemma_return_leaves_while(
    condition: SpecExpr,
    body: SpecStmt,
    scope: nat,
    m: Machine,
    fuel: nat,
)
    requires
        eval(condition, scope, m, fuel).0 matches Ok(value) && truthy(value),
        exec(body, scope, eval(condition, scope, m, fuel).1, fuel).0 matches Ok(flow)
            && flow is Return,
    ensures
        exec(SpecStmt::While { condition, body: Box::new(body) }, scope, m, fuel) == exec(
            body,
            scope,
            eval(condition, scope, m, fuel).1,
            fuel,
        ),
{
}

} // verus!
