//! Running a program again with more answers of the host.
//!
//! A call of a host function for which the evaluator holds no answer ends a
//! run with `NativePending`. The host then adds its answer and runs the
//! program again from the start. The lemmas here say why that is sound: a
//! run never changes the answers, what was printed only grows, a run that
//! did not end pending is the same run with more answers, and a run that
//! did end pending has printed nothing that the run with more answers does
//! not print again, in the same order.

use vstd::prelude::*;
use crate::ast::{SpecExpr, SpecStmt};
use crate::environment::enclosed;
use crate::semantics::{
    applied, entered, eval, eval_all, exec, exec_all, run_from, Machine, SpecFlow,
};
use crate::value::{truthy, SpecCallable, SpecRuntimeError, SpecValue};

verus! {

/// The state `m` with the answers `extra` after those it holds.
pub open spec fn extended(m: Machine, extra: Seq<SpecValue>) -> Machine {
    Machine { answers: m.answers + extra, ..m }
}

/// Whether an evaluation ended at a call of a host function that has no
/// answer yet.
pub open spec fn is_pending<T>(outcome: Result<T, SpecRuntimeError>) -> bool {
    outcome matches Err(SpecRuntimeError::NativePending { .. })
}

/// Whether `later` starts with `earlier`.
pub open spec fn grows(earlier: Seq<SpecValue>, later: Seq<SpecValue>) -> bool {
    earlier.len() <= later.len() && forall|i: int|
        0 <= i < earlier.len() ==> earlier[i] == #[trigger] later[i]
}

/// How a run from the state `m` that ended with `outcome` in the state
/// `after` relates to the same run with the answers `extra` added, which
/// ended with `outcome_with` in the state `after_with`: the answers are
/// untouched, the output has grown, and either the first run did not end
/// pending and the second is the same, or it did and the second has printed
/// at least what the first had.
pub open spec fn replays<T>(
    m: Machine,
    extra: Seq<SpecValue>,
    outcome: Result<T, SpecRuntimeError>,
    after: Machine,
    outcome_with: Result<T, SpecRuntimeError>,
    after_with: Machine,
) -> bool {
    &&& after.answers == m.answers
    &&& after.answered >= m.answered
    &&& grows(m.output, after.output)
    &&& after_with.answers == m.answers + extra
    &&& grows(m.output, after_with.output)
    &&& if is_pending(outcome) {
        grows(after.output, after_with.output)
    } else {
        outcome_with == outcome && after_with == extended(after, extra)
    }
}

/// The evaluation of an expression replays with more answers.
pub proof fn lemma_eval_replays(
    expression: SpecExpr,
    scope: nat,
    m: Machine,
    fuel: nat,
    extra: Seq<SpecValue>,
)
    ensures
        replays(
            m,
            extra,
            eval(expression, scope, m, fuel).0,
            eval(expression, scope, m, fuel).1,
            eval(expression, scope, extended(m, extra), fuel).0,
            eval(expression, scope, extended(m, extra), fuel).1,
        ),
    decreases fuel, expression, 0nat,
{
    let w = extended(m, extra);
    match expression {
        SpecExpr::Variable(_) => {},
        SpecExpr::Grouping(inner) => {
            lemma_eval_replays(*inner, scope, m, fuel, extra);
        },
        SpecExpr::Literal(_) => {},
        SpecExpr::Assignement { value, .. } => {
            lemma_eval_replays(*value, scope, m, fuel, extra);
        },
        SpecExpr::Unary { right, .. } => {
            lemma_eval_replays(*right, scope, m, fuel, extra);
        },
        SpecExpr::Binary { left, right, .. } => {
            lemma_eval_replays(*left, scope, m, fuel, extra);
            let (r1, m1) = eval(*left, scope, m, fuel);
            let (s1, w1) = eval(*left, scope, w, fuel);
            if r1 is Ok {
                lemma_eval_replays(*right, scope, m1, fuel, extra);
            } else if s1 is Ok {
                lemma_eval_replays(*right, scope, w1, fuel, Seq::empty());
            }
        },
        SpecExpr::Call { callee, arguments } => {
            lemma_eval_replays(*callee, scope, m, fuel, extra);
            let (r1, m1) = eval(*callee, scope, m, fuel);
            let (s1, w1) = eval(*callee, scope, w, fuel);
            match r1 {
                Ok(SpecValue::Function(function)) => {
                    lemma_eval_all_replays(arguments, Seq::empty(), scope, m1, fuel, extra);
                    let (r2, m2) = eval_all(arguments, Seq::empty(), scope, m1, fuel);
                    let (s2, w2) = eval_all(arguments, Seq::empty(), scope, w1, fuel);
                    match r2 {
                        Ok(values) => {
                            if runs_body(function, values, m2, fuel) {
                                lemma_exec_all_replays(
                                    body_of(function),
                                    0,
                                    m2.scopes.len(),
                                    body_state(function, values, m2),
                                    (fuel - 1) as nat,
                                    extra,
                                );
                            }
                            lemma_call_replays(function, values, m2, fuel, extra);
                        },
                        Err(_) => {
                            match s2 {
                                Ok(values) => {
                                    if runs_body(function, values, w2, fuel) {
                                        lemma_exec_all_replays(
                                            body_of(function),
                                            0,
                                            w2.scopes.len(),
                                            body_state(function, values, w2),
                                            (fuel - 1) as nat,
                                            Seq::empty(),
                                        );
                                    }
                                    lemma_call_replays(function, values, w2, fuel, Seq::empty());
                                },
                                Err(_) => {},
                            }
                        },
                    }
                },
                Ok(_) => {},
                Err(_) => {
                    match s1 {
                        Ok(SpecValue::Function(function)) => {
                            lemma_eval_all_replays(
                                arguments,
                                Seq::empty(),
                                scope,
                                w1,
                                fuel,
                                Seq::empty(),
                            );
                            let (s2, w2) = eval_all(arguments, Seq::empty(), scope, w1, fuel);
                            match s2 {
                                Ok(values) => {
                                    if runs_body(function, values, w2, fuel) {
                                        lemma_exec_all_replays(
                                            body_of(function),
                                            0,
                                            w2.scopes.len(),
                                            body_state(function, values, w2),
                                            (fuel - 1) as nat,
                                            Seq::empty(),
                                        );
                                    }
                                    lemma_call_replays(function, values, w2, fuel, Seq::empty());
                                },
                                Err(_) => {},
                            }
                        },
                        _ => {},
                    }
                },
            }
        },
    }
}

/// Whether a call of `function` with `values` runs the body of a function
/// of the program.
pub open spec fn runs_body(function: SpecCallable, values: Seq<SpecValue>, m: Machine, fuel: nat)
    -> bool {
    function matches SpecCallable::Js { parameters, closure, .. } && values.len()
        == parameters.len() && closure < m.scopes.len() && fuel > 0
}

/// The body of a function of the program.
pub open spec fn body_of(function: SpecCallable) -> Seq<SpecStmt> {
    match function {
        SpecCallable::Js { body, .. } => body,
        SpecCallable::Native { .. } => Seq::empty(),
    }
}

/// The state in which the body of `function` starts when it is called with
/// `values` in the state `m`.
pub open spec fn body_state(function: SpecCallable, values: Seq<SpecValue>, m: Machine)
    -> Machine {
    match function {
        SpecCallable::Js { parameters, closure, .. } => Machine {
            scopes: entered(m.scopes, closure, parameters, values),
            ..m
        },
        SpecCallable::Native { .. } => m,
    }
}

/// A call replays with more answers where the body of the called function
/// does.
pub proof fn lemma_call_replays(
    function: SpecCallable,
    values: Seq<SpecValue>,
    m: Machine,
    fuel: nat,
    extra: Seq<SpecValue>,
)
    requires
        runs_body(function, values, m, fuel) ==> replays(
            body_state(function, values, m),
            extra,
            exec_all(
                body_of(function),
                0,
                m.scopes.len(),
                body_state(function, values, m),
                (fuel - 1) as nat,
            ).0,
            exec_all(
                body_of(function),
                0,
                m.scopes.len(),
                body_state(function, values, m),
                (fuel - 1) as nat,
            ).1,
            exec_all(
                body_of(function),
                0,
                m.scopes.len(),
                extended(body_state(function, values, m), extra),
                (fuel - 1) as nat,
            ).0,
            exec_all(
                body_of(function),
                0,
                m.scopes.len(),
                extended(body_state(function, values, m), extra),
                (fuel - 1) as nat,
            ).1,
        ),
    ensures
        replays(
            m,
            extra,
            applied(function, values, m, fuel).0,
            applied(function, values, m, fuel).1,
            applied(function, values, extended(m, extra), fuel).0,
            applied(function, values, extended(m, extra), fuel).1,
        ),
{
    if runs_body(function, values, m, fuel) {
        assert(extended(body_state(function, values, m), extra) == body_state(
            function,
            values,
            extended(m, extra),
        ));
    }
}

/// The evaluation of several expressions replays with more answers.
pub proof fn lemma_eval_all_replays(
    expressions: Seq<SpecExpr>,
    seen: Seq<SpecValue>,
    scope: nat,
    m: Machine,
    fuel: nat,
    extra: Seq<SpecValue>,
)
    ensures
        replays(
            m,
            extra,
            eval_all(expressions, seen, scope, m, fuel).0,
            eval_all(expressions, seen, scope, m, fuel).1,
            eval_all(expressions, seen, scope, extended(m, extra), fuel).0,
            eval_all(expressions, seen, scope, extended(m, extra), fuel).1,
        ),
    decreases fuel, expressions, expressions.len() - seen.len(),
{
    let w = extended(m, extra);
    if seen.len() < expressions.len() {
        let next = expressions[seen.len() as int];
        lemma_eval_replays(next, scope, m, fuel, extra);
        let (r, m1) = eval(next, scope, m, fuel);
        let (s, w1) = eval(next, scope, w, fuel);
        match r {
            Ok(value) => {
                lemma_eval_all_replays(expressions, seen.push(value), scope, m1, fuel, extra);
            },
            Err(_) => {
                match s {
                    Ok(value) => {
                        lemma_eval_all_replays(
                            expressions,
                            seen.push(value),
                            scope,
                            w1,
                            fuel,
                            Seq::empty(),
                        );
                    },
                    Err(_) => {},
                }
            },
        }
    }
}

/// The execution of a statement replays with more answers.
pub proof fn lemma_exec_replays(
    statement: SpecStmt,
    scope: nat,
    m: Machine,
    fuel: nat,
    extra: Seq<SpecValue>,
)
    ensures
        replays(
            m,
            extra,
            exec(statement, scope, m, fuel).0,
            exec(statement, scope, m, fuel).1,
            exec(statement, scope, extended(m, extra), fuel).0,
            exec(statement, scope, extended(m, extra), fuel).1,
        ),
    decreases fuel, statement, 0nat,
{
    let w = extended(m, extra);
    match statement {
        SpecStmt::Let { expression, .. } => {
            match expression {
                Some(initializer) => {
                    lemma_eval_replays(initializer, scope, m, fuel, extra);
                },
                None => {},
            }
        },
        SpecStmt::If { condition, consequence, alternative } => {
            lemma_eval_replays(condition, scope, m, fuel, extra);
            let (r, m1) = eval(condition, scope, m, fuel);
            let (s, w1) = eval(condition, scope, w, fuel);
            match r {
                Ok(value) => {
                    if truthy(value) {
                        lemma_exec_replays(*consequence, scope, m1, fuel, extra);
                    } else {
                        match alternative {
                            Some(otherwise) => {
                                lemma_exec_replays(*otherwise, scope, m1, fuel, extra);
                            },
                            None => {},
                        }
                    }
                },
                Err(_) => {
                    match s {
                        Ok(value) => {
                            if truthy(value) {
                                lemma_exec_replays(*consequence, scope, w1, fuel, Seq::empty());
                            } else {
                                match alternative {
                                    Some(otherwise) => {
                                        lemma_exec_replays(
                                            *otherwise,
                                            scope,
                                            w1,
                                            fuel,
                                            Seq::empty(),
                                        );
                                    },
                                    None => {},
                                }
                            }
                        },
                        Err(_) => {},
                    }
                },
            }
        },
        SpecStmt::While { condition, body } => {
            lemma_eval_replays(condition, scope, m, fuel, extra);
            let (r, m1) = eval(condition, scope, m, fuel);
            let (s, w1) = eval(condition, scope, w, fuel);
            match r {
                Ok(value) => {
                    if truthy(value) {
                        lemma_exec_replays(*body, scope, m1, fuel, extra);
                        let (r2, m2) = exec(*body, scope, m1, fuel);
                        let (s2, w2) = exec(*body, scope, w1, fuel);
                        match r2 {
                            Ok(SpecFlow::Normal) => {
                                if fuel > 0 {
                                    lemma_exec_replays(
                                        statement,
                                        scope,
                                        m2,
                                        (fuel - 1) as nat,
                                        extra,
                                    );
                                }
                            },
                            Ok(SpecFlow::Return(_)) => {},
                            Err(_) => {
                                match s2 {
                                    Ok(SpecFlow::Normal) => {
                                        if fuel > 0 {
                                            lemma_exec_replays(
                                                statement,
                                                scope,
                                                w2,
                                                (fuel - 1) as nat,
                                                Seq::empty(),
                                            );
                                        }
                                    },
                                    _ => {},
                                }
                            },
                        }
                    }
                },
                Err(_) => {
                    match s {
                        Ok(value) => {
                            if truthy(value) {
                                lemma_exec_replays(*body, scope, w1, fuel, Seq::empty());
                                let (s2, w2) = exec(*body, scope, w1, fuel);
                                match s2 {
                                    Ok(SpecFlow::Normal) => {
                                        if fuel > 0 {
                                            lemma_exec_replays(
                                                statement,
                                                scope,
                                                w2,
                                                (fuel - 1) as nat,
                                                Seq::empty(),
                                            );
                                        }
                                    },
                                    _ => {},
                                }
                            }
                        },
                        Err(_) => {},
                    }
                },
            }
        },
        SpecStmt::Block(statements) => {
            let inner = Machine { scopes: enclosed(m.scopes, scope), ..m };
            lemma_exec_all_replays(statements, 0, m.scopes.len(), inner, fuel, extra);
            assert(extended(inner, extra) == Machine { scopes: enclosed(w.scopes, scope), ..w });
        },
        SpecStmt::Expression(expression) => {
            lemma_eval_replays(expression, scope, m, fuel, extra);
        },
        SpecStmt::Print(expression) => {
            lemma_eval_replays(expression, scope, m, fuel, extra);
        },
        SpecStmt::Function { .. } => {},
        SpecStmt::Return(expression) => {
            lemma_eval_replays(expression, scope, m, fuel, extra);
        },
    }
}

/// The execution of several statements replays with more answers.
pub proof fn lemma_exec_all_replays(
    statements: Seq<SpecStmt>,
    from: nat,
    scope: nat,
    m: Machine,
    fuel: nat,
    extra: Seq<SpecValue>,
)
    ensures
        replays(
            m,
            extra,
            exec_all(statements, from, scope, m, fuel).0,
            exec_all(statements, from, scope, m, fuel).1,
            exec_all(statements, from, scope, extended(m, extra), fuel).0,
            exec_all(statements, from, scope, extended(m, extra), fuel).1,
        ),
    decreases fuel, statements, statements.len() - from,
{
    let w = extended(m, extra);
    if from < statements.len() {
        lemma_exec_replays(statements[from as int], scope, m, fuel, extra);
        let (r, m1) = exec(statements[from as int], scope, m, fuel);
        let (s, w1) = exec(statements[from as int], scope, w, fuel);
        match r {
            Ok(SpecFlow::Normal) => {
                lemma_exec_all_replays(statements, from + 1, scope, m1, fuel, extra);
            },
            Ok(SpecFlow::Return(_)) => {},
            Err(_) => {
                match s {
                    Ok(SpecFlow::Normal) => {
                        lemma_exec_all_replays(
                            statements,
                            from + 1,
                            scope,
                            w1,
                            fuel,
                            Seq::empty(),
                        );
                    },
                    _ => {},
                }
            },
        }
    }
}

/// The run of a program replays with more answers: a run that did not end
/// pending is the same run with the answers added, and a run that did end
/// pending has printed what the run with the answers added prints first.
pub proof fn lemma_run_replays(
    statements: Seq<SpecStmt>,
    from: nat,
    m: Machine,
    fuel: nat,
    extra: Seq<SpecValue>,
)
    ensures
        replays(
            m,
            extra,
            run_from(statements, from, m, fuel).0,
            run_from(statements, from, m, fuel).1,
            run_from(statements, from, extended(m, extra), fuel).0,
            run_from(statements, from, extended(m, extra), fuel).1,
        ),
    decreases statements.len() - from,
{
    let w = extended(m, extra);
    if from < statements.len() {
        lemma_exec_replays(statements[from as int], 0, m, fuel, extra);
        let (r, m1) = exec(statements[from as int], 0, m, fuel);
        let (s, w1) = exec(statements[from as int], 0, w, fuel);
        match r {
            Ok(_) => {
                lemma_run_replays(statements, from + 1, m1, fuel, extra);
            },
            Err(_) => {
                match s {
                    Ok(_) => {
                        lemma_run_replays(statements, from + 1, w1, fuel, Seq::empty());
                    },
                    Err(_) => {},
                }
            },
        }
    }
}

} // verus!
