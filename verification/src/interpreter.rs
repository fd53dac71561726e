//! The evaluator: walks the syntax tree and does what it says.
//!
//! What an expression evaluates to, and what a statement does, is stated in
//! [`crate::semantics`]; every function here returns what is stated there.
//!
//! The evaluator does no input or output, and asks the host nothing while
//! it runs. What a program prints is kept, as values, for the host to write. Where a program calls a host
//! function, the evaluator takes the next of the answers that the host has
//! handed it; where it has none left, the run ends with
//! [`RuntimeError::NativePending`], which names the function and holds the
//! arguments. The host then computes the answer, hands it over with
//! [`Interpreter::answer`], and runs the program again from the start
//! ([`Interpreter::restart`], with a fresh environment): the second run is the
//! first one carried on, as [`crate::replay`] shows.

use vstd::prelude::*;
use crate::ast::{
    clone_statements, exprs_view, lemma_block_view, lemma_call_view,
    lemma_function_literal_view, lemma_function_statement_view, stmts_view, Expression,
    ParserValue, SpecStmt, Statement,
};
use crate::environment::{enclosed, Environment, GLOBAL};
use crate::ident::{clone_names, names_view};
use crate::number::Number;
use crate::semantics::{
    bound, entered, eval, eval_all, exec, exec_all, finished, literal_value, native_call,
    run_from, Evaluated, EvaluatedAll, Executed, Machine, SpecFlow,
};
use crate::value::{
    lemma_values_view_push, value_result_view, values_view, Callable, JsFunction, RuntimeError,
    SpecValue, Value,
};

verus! {

/// How a statement ended: normally, or with a `return` that ends the call of
/// the function in which it stands.
#[derive(Debug)]
pub enum Flow {
    Normal,
    Return(Value),
}

impl View for Flow {
    type V = SpecFlow;

    open spec fn view(&self) -> SpecFlow {
        match self {
            Flow::Normal => SpecFlow::Normal,
            Flow::Return(value) => SpecFlow::Return(value@),
        }
    }
}

/// The outcome of an evaluation with the state after it, by their views.
pub open spec fn evaluated(r: Result<Value, RuntimeError>, m: Machine) -> Evaluated {
    (value_result_view(r), m)
}

/// The outcome of the evaluation of some expressions with the state after
/// it, by their views.
pub open spec fn evaluated_all(r: Result<Vec<Value>, RuntimeError>, m: Machine) -> EvaluatedAll {
    (
        match r {
            Ok(values) => Ok(values_view(values@)),
            Err(error) => Err(error@),
        },
        m,
    )
}

/// The outcome of an execution with the state after it, by their views.
pub open spec fn executed(r: Result<Flow, RuntimeError>, m: Machine) -> Executed {
    (
        match r {
            Ok(flow) => Ok(flow@),
            Err(error) => Err(error@),
        },
        m,
    )
}

/// The evaluator of one program. It holds the program, what the program has
/// printed, and the answers of the host to the program's calls of host
/// functions.
pub struct Interpreter {
    statements: Vec<Statement>,
    output: Vec<Value>,
    answers: Vec<Value>,
    answered: usize,
}

impl Interpreter {
    /// The statements of the program.
    pub closed spec fn program(&self) -> Seq<SpecStmt> {
        stmts_view(self.statements@)
    }

    /// The values that the program has printed, in order.
    pub closed spec fn printed(&self) -> Seq<SpecValue> {
        values_view(self.output@)
    }

    /// The answers of the host, in the order of the calls.
    pub closed spec fn answers(&self) -> Seq<SpecValue> {
        values_view(self.answers@)
    }

    /// How many calls of host functions the program has made.
    pub closed spec fn answered(&self) -> nat {
        self.answered as nat
    }

    /// The state of the run: the scopes of `environment` with what the
    /// evaluator holds.
    pub open spec fn machine(&self, environment: &Environment) -> Machine {
        Machine {
            scopes: environment@,
            output: self.printed(),
            answers: self.answers(),
            answered: self.answered(),
        }
    }

    /// An evaluator for the program `statements`, which has printed nothing
    /// and holds no answers.
    pub fn new(statements: Vec<Statement>) -> (r: Interpreter)
        ensures
            r.program() == stmts_view(statements@),
            r.printed() == Seq::<SpecValue>::empty(),
            r.answers() == Seq::<SpecValue>::empty(),
            r.answered() == 0,
    {
        let r = Interpreter { statements, output: Vec::new(), answers: Vec::new(), answered: 0 };
        assert(r.printed() =~= Seq::<SpecValue>::empty());
        assert(r.answers() =~= Seq::<SpecValue>::empty());
        r
    }

    /// The values that the program has printed, in order.
    pub fn output(&self) -> (r: &Vec<Value>)
        ensures
            values_view(r@) == self.printed(),
    {
        &self.output
    }

    /// Hands the evaluator the answer of the host to the next call of a host
    /// function that has none yet.
    pub fn answer(&mut self, value: Value)
        ensures
            final(self).program() == old(self).program(),
            final(self).printed() == old(self).printed(),
            final(self).answers() == old(self).answers().push(value@),
            final(self).answered() == old(self).answered(),
    {
        proof {
            lemma_values_view_push(self.answers@, value);
        }
        self.answers.push(value);
    }

    /// Makes the evaluator ready to run its program again from the start: it
    /// keeps the program and the answers, and forgets what was printed and
    /// which answers were used.
    pub fn restart(&mut self)
        ensures
            final(self).program() == old(self).program(),
            final(self).printed() == Seq::<SpecValue>::empty(),
            final(self).answers() == old(self).answers(),
            final(self).answered() == 0,
    {
        self.output = Vec::new();
        self.answered = 0;
        assert(self.printed() =~= Seq::<SpecValue>::empty());
    }

    /// The value of the literal `value` in the scope `scope`.
    fn literal(value: &ParserValue, scope: usize) -> (r: Result<Value, RuntimeError>)
        ensures
            value_result_view(r) == literal_value(value@, scope as nat),
    {
        match value {
            ParserValue::String(text) => Ok(Value::String(text.clone())),
            ParserValue::Number(text) => match Number::parse(text.as_str()) {
                Some(number) => Ok(Value::Number(number)),
                None => Err(RuntimeError::InvalidNumber(text.clone())),
            },
            ParserValue::Bool(b) => Ok(Value::Bool(*b)),
            ParserValue::Null => Ok(Value::Null),
            ParserValue::Function { ident, params, body } => {
                proof {
                    lemma_function_literal_view(*value);
                }
                Ok(
                    Value::Function(
                        Callable::Js(
                            JsFunction {
                                name: match ident {
                                    Some(name) => Some(name.value()),
                                    None => None,
                                },
                                parameters: clone_names(params),
                                body: body.clone(),
                                closure: scope,
                            },
                        ),
                    ),
                )
            },
        }
    }

    /// The call of the host function `name` with `arguments`: its value is
    /// the next answer of the host; where the host has given no answer for
    /// this call yet, the call is pending.
    fn native_call(&mut self, name: String, arguments: Vec<Value>, environment: &Environment) -> (r:
        Result<Value, RuntimeError>)
        ensures
            final(self).program() == old(self).program(),
            evaluated(r, final(self).machine(environment)) == native_call(
                name@,
                values_view(arguments@),
                old(self).machine(environment),
            ),
    {
        if self.answered < self.answers.len() {
            let value = self.answers[self.answered].clone();
            self.answered = self.answered + 1;
            Ok(value)
        } else {
            Err(RuntimeError::NativePending { name, arguments })
        }
    }

    /// The value of `expr` in the scope `scope`.
    ///
    /// A variable has the value that the first scope from `scope` outward
    /// binds it to. An assignment gives the variable, where a scope binds it,
    /// the value of its right side. Operators take the values of their
    /// operands, the left before the right. A call evaluates the callee, which
    /// has to be a function, then the arguments from left to right, whose
    /// number has to be that of the parameters; a function of the program runs
    /// its body in a new scope, which the scope of its creation encloses and
    /// which binds the parameters to the arguments; a host function has the
    /// value of the next answer of the host.
    pub fn evaluate(
        &mut self,
        expr: &Expression,
        environment: &mut Environment,
        scope: usize,
        fuel: u64,
    ) -> (r: Result<Value, RuntimeError>)
        requires
            old(environment).has_scope(scope),
        ensures
            evaluated(r, final(self).machine(final(environment))) == eval(
                expr@,
                scope as nat,
                old(self).machine(old(environment)),
                fuel as nat,
            ),
            final(self).program() == old(self).program(),
            old(environment)@.len() <= final(environment)@.len(),
        decreases fuel, expr, 0nat,
    {
        match expr {
            Expression::Variable(ident) => match environment.get(scope, ident.0.as_str()) {
                Some(value) => Ok(value),
                None => Err(RuntimeError::UndefinedVariable(ident.value())),
            },
            Expression::Grouping(inner) => self.evaluate(inner, environment, scope, fuel),
            Expression::Literal(value) => Self::literal(value, scope),
            Expression::Assignement { ident, value } => {
                let value = self.evaluate(value, environment, scope, fuel)?;
                if environment.assign(scope, ident.0.as_str(), value.clone()) {
                    Ok(value)
                } else {
                    Err(RuntimeError::UndefinedVariable(ident.value()))
                }
            },
            Expression::Unary { operator, right } => {
                let right = self.evaluate(right, environment, scope, fuel)?;
                right.unary(*operator)
            },
            Expression::Binary { left, operator, right } => {
                let left = self.evaluate(left, environment, scope, fuel)?;
                let right = self.evaluate(right, environment, scope, fuel)?;
                left.binary(*operator, &right)
            },
            Expression::Call { callee, arguments } => {
                proof {
                    lemma_call_view(*expr);
                }
                let callee = self.evaluate(callee, environment, scope, fuel)?;
                match callee {
                    Value::Function(function) => {
                        let values = self.evaluate_all(arguments, environment, scope, fuel)?;
                        if values.len() != function.arity() {
                            return Err(
                                RuntimeError::ArityMismatch {
                                    expected: function.arity(),
                                    found: values.len(),
                                },
                            );
                        }
                        match function {
                            Callable::Native(native) => self.native_call(
                                native.name,
                                values,
                                environment,
                            ),
                            Callable::Js(function) => {
                                if function.closure >= environment.len() {
                                    Err(RuntimeError::InvalidClosure)
                                } else if fuel == 0 {
                                    Err(RuntimeError::OutOfFuel)
                                } else {
                                    self.call(&function, values, environment, fuel - 1)
                                }
                            },
                        }
                    },
                    _ => Err(RuntimeError::NotCallable),
                }
            },
        }
    }

    /// The values of `expressions` in the scope `scope`, evaluated from left
    /// to right.
    fn evaluate_all(
        &mut self,
        expressions: &Vec<Expression>,
        environment: &mut Environment,
        scope: usize,
        fuel: u64,
    ) -> (r: Result<Vec<Value>, RuntimeError>)
        requires
            old(environment).has_scope(scope),
        ensures
            evaluated_all(r, final(self).machine(final(environment))) == eval_all(
                exprs_view(expressions@),
                Seq::empty(),
                scope as nat,
                old(self).machine(old(environment)),
                fuel as nat,
            ),
            final(self).program() == old(self).program(),
            old(environment)@.len() <= final(environment)@.len(),
        decreases fuel, expressions, expressions.len(),
    {
        let mut values: Vec<Value> = Vec::new();
        assert(values_view(values@) =~= Seq::<SpecValue>::empty());
        let mut i: usize = 0;
        while i < expressions.len()
            invariant
                i <= expressions.len(),
                values.len() == i,
                environment.has_scope(scope),
                old(environment)@.len() <= environment@.len(),
                self.program() == old(self).program(),
                eval_all(
                    exprs_view(expressions@),
                    values_view(values@),
                    scope as nat,
                    self.machine(environment),
                    fuel as nat,
                ) == eval_all(
                    exprs_view(expressions@),
                    Seq::empty(),
                    scope as nat,
                    old(self).machine(old(environment)),
                    fuel as nat,
                ),
            decreases expressions.len() - i,
        {
            let ghost seen = values@;
            let value = self.evaluate(&expressions[i], environment, scope, fuel)?;
            proof {
                lemma_values_view_push(seen, value);
            }
            values.push(value);
            i = i + 1;
        }
        Ok(values)
    }

    /// The call of `function` with `arguments`: runs the body in a new scope,
    /// which the scope of the function's creation encloses and which binds
    /// the parameters to the arguments. The value is what the body returns,
    /// or `null` where it ends without a `return`.
    fn call(
        &mut self,
        function: &JsFunction,
        arguments: Vec<Value>,
        environment: &mut Environment,
        fuel: u64,
    ) -> (r: Result<Value, RuntimeError>)
        requires
            old(environment).has_scope(function.closure),
            arguments.len() == function.parameters.len(),
        ensures
            evaluated(r, final(self).machine(final(environment))) == finished(
                exec_all(
                    function.body@,
                    0,
                    old(environment)@.len(),
                    Machine {
                        scopes: entered(
                            old(environment)@,
                            function.closure as nat,
                            names_view(function.parameters@),
                            values_view(arguments@),
                        ),
                        ..old(self).machine(old(environment))
                    },
                    fuel as nat,
                ),
            ),
            final(self).program() == old(self).program(),
            old(environment)@.len() <= final(environment)@.len(),
        decreases fuel, function.body, 2nat,
    {
        let scope = environment.new_enclosing(function.closure);
        let mut i: usize = 0;
        while i < function.parameters.len()
            invariant
                i <= function.parameters.len(),
                arguments.len() == function.parameters.len(),
                environment.has_scope(scope),
                environment@.len() == old(environment)@.len() + 1,
                environment@ == bound(
                    enclosed(old(environment)@, function.closure as nat),
                    scope as nat,
                    names_view(function.parameters@),
                    values_view(arguments@),
                    i as nat,
                ),
            decreases function.parameters.len() - i,
        {
            environment.define(scope, function.parameters[i].0.as_str(), arguments[i].clone());
            i = i + 1;
        }
        let flow = self.execute_all(&function.body.0, environment, scope, fuel)?;
        match flow {
            Flow::Return(value) => Ok(value),
            Flow::Normal => Ok(Value::Null),
        }
    }

    /// Does what `statement` says in the scope `scope`.
    ///
    /// `let` binds a name in `scope` itself; `if` and `while` go by the
    /// truthiness of their conditions; a block runs its statements in a new
    /// scope that `scope` encloses; `print` adds a value to the output; a
    /// function declaration binds its name, in `scope`, to a function that
    /// closes over `scope`. A `return` ends every statement around it up to
    /// the body of the function: no statement after it is run.
    fn execute(
        &mut self,
        statement: &Statement,
        environment: &mut Environment,
        scope: usize,
        fuel: u64,
    ) -> (r: Result<Flow, RuntimeError>)
        requires
            old(environment).has_scope(scope),
        ensures
            executed(r, final(self).machine(final(environment))) == exec(
                statement@,
                scope as nat,
                old(self).machine(old(environment)),
                fuel as nat,
            ),
            final(self).program() == old(self).program(),
            old(environment)@.len() <= final(environment)@.len(),
        decreases fuel, statement, 0nat,
    {
        match statement {
            Statement::Print(expression) => {
                let value = self.evaluate(expression, environment, scope, fuel)?;
                proof {
                    lemma_values_view_push(self.output@, value);
                }
                self.output.push(value);
                Ok(Flow::Normal)
            },
            Statement::Let(stmt) => {
                let value = match &stmt.expression {
                    Some(expression) => self.evaluate(expression, environment, scope, fuel)?,
                    None => Value::Null,
                };
                environment.define(scope, stmt.ident.0.as_str(), value);
                Ok(Flow::Normal)
            },
            Statement::If(stmt) => {
                let condition = self.evaluate(&stmt.condition, environment, scope, fuel)?;
                if condition.is_truthy() {
                    self.execute(&stmt.consequence, environment, scope, fuel)
                } else {
                    match &stmt.alternative {
                        Some(alternative) => self.execute(alternative, environment, scope, fuel),
                        None => Ok(Flow::Normal),
                    }
                }
            },
            Statement::While(stmt) => {
                let mut left: u64 = fuel;
                loop
                    invariant
                        left <= fuel,
                        environment.has_scope(scope),
                        old(environment)@.len() <= environment@.len(),
                        self.program() == old(self).program(),
                        statement == Statement::While(*stmt),
                        exec(
                            statement@,
                            scope as nat,
                            self.machine(environment),
                            left as nat,
                        ) == exec(
                            statement@,
                            scope as nat,
                            old(self).machine(old(environment)),
                            fuel as nat,
                        ),
                    decreases left,
                {
                    let condition = self.evaluate(&stmt.condition, environment, scope, left)?;
                    if !condition.is_truthy() {
                        return Ok(Flow::Normal);
                    }
                    match self.execute(&stmt.body, environment, scope, left)? {
                        Flow::Return(value) => {
                            return Ok(Flow::Return(value));
                        },
                        Flow::Normal => {},
                    }
                    if left == 0 {
                        return Err(RuntimeError::OutOfFuel);
                    }
                    left = left - 1;
                }
            },
            Statement::Block(block) => {
                proof {
                    lemma_block_view(*statement);
                }
                let inner = environment.new_enclosing(scope);
                self.execute_all(&block.0, environment, inner, fuel)
            },
            Statement::Expression(expression) => {
                let _ = self.evaluate(expression, environment, scope, fuel)?;
                Ok(Flow::Normal)
            },
            Statement::Function(stmt) => {
                proof {
                    lemma_function_statement_view(*statement);
                }
                let function = Value::Function(
                    Callable::Js(
                        JsFunction {
                            name: Some(stmt.ident.value()),
                            parameters: clone_names(&stmt.parameters),
                            body: stmt.body.clone(),
                            closure: scope,
                        },
                    ),
                );
                environment.define(scope, stmt.ident.0.as_str(), function);
                Ok(Flow::Normal)
            },
            Statement::Return(expression) => {
                let value = self.evaluate(expression, environment, scope, fuel)?;
                Ok(Flow::Return(value))
            },
        }
    }

    /// Runs `statements` one after the other in the scope `scope`, up to the
    /// first `return` or error.
    fn execute_all(
        &mut self,
        statements: &Vec<Statement>,
        environment: &mut Environment,
        scope: usize,
        fuel: u64,
    ) -> (r: Result<Flow, RuntimeError>)
        requires
            old(environment).has_scope(scope),
        ensures
            executed(r, final(self).machine(final(environment))) == exec_all(
                stmts_view(statements@),
                0,
                scope as nat,
                old(self).machine(old(environment)),
                fuel as nat,
            ),
            final(self).program() == old(self).program(),
            old(environment)@.len() <= final(environment)@.len(),
        decreases fuel, statements, statements.len(),
    {
        let mut i: usize = 0;
        while i < statements.len()
            invariant
                i <= statements.len(),
                environment.has_scope(scope),
                old(environment)@.len() <= environment@.len(),
                self.program() == old(self).program(),
                exec_all(
                    stmts_view(statements@),
                    i as nat,
                    scope as nat,
                    self.machine(environment),
                    fuel as nat,
                ) == exec_all(
                    stmts_view(statements@),
                    0,
                    scope as nat,
                    old(self).machine(old(environment)),
                    fuel as nat,
                ),
            decreases statements.len() - i,
        {
            match self.execute(&statements[i], environment, scope, fuel)? {
                Flow::Return(value) => {
                    return Ok(Flow::Return(value));
                },
                Flow::Normal => {},
            }
            i = i + 1;
        }
        Ok(Flow::Normal)
    }

    /// Runs the statements of `block` one after the other in the scope
    /// `scope` itself, as the body of a function is run, up to the first
    /// `return` or error. The value is what was returned, or `null` where no
    /// `return` was reached.
    pub fn execute_block(
        &mut self,
        block: &crate::ast::BlockStatement,
        environment: &mut Environment,
        scope: usize,
        fuel: u64,
    ) -> (r: Result<Value, RuntimeError>)
        requires
            old(environment).has_scope(scope),
        ensures
            evaluated(r, final(self).machine(final(environment))) == finished(
                exec_all(
                    block@,
                    0,
                    scope as nat,
                    old(self).machine(old(environment)),
                    fuel as nat,
                ),
            ),
            final(self).program() == old(self).program(),
            old(environment)@.len() <= final(environment)@.len(),
    {
        let flow = self.execute_all(&block.0, environment, scope, fuel)?;
        match flow {
            Flow::Return(value) => Ok(value),
            Flow::Normal => Ok(Value::Null),
        }
    }

    /// Runs the program: its statements one after the other in the global
    /// scope of `environment`, up to the first error. A `return` at the top
    /// level ends the statement in which it stands, not the program.
    pub fn run(&mut self, environment: &mut Environment, fuel: u64) -> (r: Result<
        (),
        RuntimeError,
    >)
        requires
            old(environment).has_scope(GLOBAL),
        ensures
            (
                match r {
                    Ok(_) => Ok(()),
                    Err(error) => Err(error@),
                },
                final(self).machine(final(environment)),
            ) == run_from(
                old(self).program(),
                0,
                old(self).machine(old(environment)),
                fuel as nat,
            ),
            final(self).program() == old(self).program(),
            old(environment)@.len() <= final(environment)@.len(),
    {
        let statements = clone_statements(&self.statements);
        let mut i: usize = 0;
        while i < statements.len()
            invariant
                i <= statements.len(),
                stmts_view(statements@) == old(self).program(),
                environment.has_scope(GLOBAL),
                old(environment)@.len() <= environment@.len(),
                self.program() == old(self).program(),
                run_from(
                    old(self).program(),
                    i as nat,
                    self.machine(environment),
                    fuel as nat,
                ) == run_from(
                    old(self).program(),
                    0,
                    old(self).machine(old(environment)),
                    fuel as nat,
                ),
            decreases statements.len() - i,
        {
            let _ = self.execute(&statements[i], environment, GLOBAL, fuel)?;
            i = i + 1;
        }
        Ok(())
    }
}

} // verus!
