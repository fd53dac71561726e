use jslite::ast::{BlockStatement, Expression, ParserValue};
use jslite::environment::{Environment, GLOBAL};
use jslite::interpreter::Interpreter;
use jslite::number::Number;
use jslite::operator::Operator;
use jslite::parser::Parser;
use jslite::value::{Callable, JsFunction, RuntimeError, Value};

const FUEL: u64 = 1000;

fn num(x: f64) -> Value {
    Value::Number(Number::from_bits(x.to_bits()))
}

struct Run {
    result: Result<(), RuntimeError>,
    environment: Environment,
    output: Vec<Value>,
}

impl Run {
    fn get(&self, name: &str) -> Value {
        match self.environment.get(GLOBAL, name) {
            Some(value) => value,
            None => panic!("Undefined variable: {}", name),
        }
    }
}

fn run_with(code: &str, answers: Vec<Value>, fuel: u64) -> Run {
    let mut environment = Environment::new();
    let statements = Parser::new(code).parse().unwrap();
    let mut interpreter = Interpreter::new(statements);
    for answer in answers {
        interpreter.answer(answer);
    }
    let result = interpreter.run(&mut environment, fuel);
    let output = interpreter.output().clone();
    Run { result, environment, output }
}

fn run_interpreter(code: &str) -> Run {
    let run = run_with(code, vec![], FUEL);
    assert_eq!(run.result, Ok(()));
    run
}

fn fails(code: &str) -> RuntimeError {
    run_with(code, vec![], FUEL).result.unwrap_err()
}

#[test]
fn interpreter_variable_declaration() {
    let interpreter = run_interpreter("let x = 1; let y;");

    assert_eq!(interpreter.get("x"), num(1.0));
    assert_eq!(interpreter.get("y"), Value::Null);
}

#[test]
fn interpreter_variable_assignment() {
    let interpreter = run_interpreter("let x = 1; x = 2;");

    assert_eq!(interpreter.get("x"), num(2.0));
}

#[test]
fn interpreter_variable_assignment_with_undefined_variable() {
    assert_eq!(fails("x = 2;"), RuntimeError::UndefinedVariable("x".to_string()));
}

#[test]
fn interpreter_if_statement() {
    let interpreter = run_interpreter("let x = 1; if (true) { x = 2; }");

    assert_eq!(interpreter.get("x"), num(2.0));
}

#[test]
fn interpreter_function_return_value() {
    let interpreter = run_interpreter(
        "function foo() {
                return 1;
            }
            
            let a = foo();",
    );

    assert_eq!(interpreter.get("a"), num(1.0));
}

#[test]
fn interpreter_closures() {
    let interpreter = run_interpreter(
        "
        function makeCounter() {
            let i = 0;
            
            function count() {
                i = i + 1;
                return i; 
            }
        
            return count;
        }
        
        let counter = makeCounter();
        let a = counter();
        let b = counter();",
    );

    assert_eq!(interpreter.get("a"), num(1.0));
    assert_eq!(interpreter.get("b"), num(2.0));
}

#[test]
fn let_functions() {
    let interpreter = run_interpreter(
        "
        let foo = function() {
            return 1;
        };
        
        let a = foo();",
    );

    assert_eq!(interpreter.get("a"), num(1.0));
}

fn evaluate(expression: &Expression) -> Result<Value, RuntimeError> {
    let mut environment = Environment::new();
    let mut interpreter = Interpreter::new(vec![]);
    interpreter.evaluate(expression, &mut environment, GLOBAL, FUEL)
}

#[test]
fn test_evaluate() {
    let expression = Expression::binary(
        Expression::literal(ParserValue::number("1")),
        Operator::Plus,
        Expression::literal(ParserValue::number("2")),
    );

    assert_eq!(evaluate(&expression), Ok(num(3.0)));
}

#[test]
fn test_evaluate_grouping() {
    let expression = Expression::binary(
        Expression::literal(ParserValue::number("7")),
        Operator::Asterisk,
        Expression::grouping(Expression::binary(
            Expression::literal(ParserValue::number("1")),
            Operator::Plus,
            Expression::literal(ParserValue::number("2")),
        )),
    );

    assert_eq!(evaluate(&expression), Ok(num(21.0)));
}

#[test]
fn test_evaluate_unary() {
    let expression =
        Expression::unary(Operator::Minus, Expression::literal(ParserValue::number("1")));

    assert_eq!(evaluate(&expression), Ok(num(-1.0)));
}

#[test]
fn shadowing_does_not_leak_out_of_a_block() {
    let run = run_interpreter("let x = 1; { let x = 2; }");
    assert_eq!(run.get("x"), num(1.0));
    let run = run_interpreter("let x = 1; let seen; { let x = 2; seen = x; x = 3; } let after = x;");
    assert_eq!(run.get("seen"), num(2.0));
    assert_eq!(run.get("after"), num(1.0));
    let run = run_interpreter("let x = 1; { x = 2; }");
    assert_eq!(run.get("x"), num(2.0));
}

#[test]
fn two_counters_do_not_interfere() {
    let run = run_interpreter(
        "function makeCounter(){ let i=0; function count(){ i=i+1; return i; } return count; }
         let c = makeCounter(); let d = makeCounter();
         let ca = c(); let cb = c(); let da = d(); let cc = c(); let db = d();",
    );
    assert_eq!(run.get("ca"), num(1.0));
    assert_eq!(run.get("cb"), num(2.0));
    assert_eq!(run.get("da"), num(1.0));
    assert_eq!(run.get("cc"), num(3.0));
    assert_eq!(run.get("db"), num(2.0));
}

#[test]
fn return_leaves_nested_statements_at_once() {
    let run = run_interpreter(
        "function f(){ while(true){ if(true){ return 5; } } return 10; } let r = f();",
    );
    assert_eq!(run.get("r"), num(5.0));
    let run = run_interpreter(
        "let hits = 0;
         function g(n) { let i = 0; while (i < 10) { { if (i == n) { return i; hits = hits + 100; } } hits = hits + 1; i = i + 1; } return -1; }
         let r = g(3); let missing = g(50);",
    );
    assert_eq!(run.get("r"), num(3.0));
    assert_eq!(run.get("missing"), num(-1.0));
    assert_eq!(run.get("hits"), num(13.0));
    let run = run_interpreter("function h() { if (false) { return 1; } else { return 2; } return 3; } let r = h();");
    assert_eq!(run.get("r"), num(2.0));
    let run = run_interpreter("function none() { } let r = none(); function bare() { return; } let s = bare();");
    assert_eq!(run.get("r"), Value::Null);
    assert_eq!(run.get("s"), Value::Null);
}

#[test]
fn a_return_at_the_top_level_does_not_end_the_program() {
    let run = run_interpreter("let x = 1; return 5; x = 2;");
    assert_eq!(run.get("x"), num(2.0));
}

#[test]
fn the_number_of_arguments_has_to_match() {
    assert_eq!(
        fails("function f() { } f(1);"),
        RuntimeError::ArityMismatch { expected: 0, found: 1 }
    );
    assert_eq!(
        fails("function f(a) { } f();"),
        RuntimeError::ArityMismatch { expected: 1, found: 0 }
    );
    assert_eq!(
        fails("clock(1);"),
        RuntimeError::ArityMismatch { expected: 0, found: 1 }
    );
    let run = run_interpreter("function f(a, b) { return a - b; } let r = f(5, 3);");
    assert_eq!(run.get("r"), num(2.0));
}

#[test]
fn operators_in_programs() {
    let run = run_interpreter(
        "let a = \"a\" + \"b\"; let b = 1 == \"1\"; let c = null == null; let d = !0; let e = !\"\";
         let f = 1 + 2 * 3 - 4 / 8; let g = -(1 + 1); let h = 1 < 2 && 2 >= 2 || false; let i = 1 != 1;
         let j = \"abc\" < \"abd\"; let k = 0.1 + 0.2; let l = 2 > 1; let m = 3 <= 2;",
    );
    assert_eq!(run.get("a"), Value::string("ab"));
    assert_eq!(run.get("b"), Value::Bool(false));
    assert_eq!(run.get("c"), Value::Bool(true));
    assert_eq!(run.get("d"), Value::Bool(true));
    assert_eq!(run.get("e"), Value::Bool(false));
    assert_eq!(run.get("f"), num(6.5));
    assert_eq!(run.get("g"), num(-2.0));
    assert_eq!(run.get("h"), Value::Bool(true));
    assert_eq!(run.get("i"), Value::Bool(false));
    assert_eq!(run.get("j"), Value::Bool(true));
    assert_eq!(run.get("k"), num(0.1 + 0.2));
    assert_eq!(run.get("l"), Value::Bool(true));
    assert_eq!(run.get("m"), Value::Bool(false));
}

#[test]
fn both_sides_of_and_and_or_are_evaluated() {
    let run = run_interpreter("let n = 0; function f() { n = n + 1; return true; } let a = false && f(); let b = true || f();");
    assert_eq!(run.get("n"), num(2.0));
    assert_eq!(run.get("a"), Value::Bool(false));
    assert_eq!(run.get("b"), Value::Bool(true));
}

#[test]
fn for_prints_and_keeps_its_variable_to_itself() {
    let run = run_with("for (let i=0; i<3; i=i+1) { print i; } let after = i;", vec![], FUEL);
    assert_eq!(run.output, vec![num(0.0), num(1.0), num(2.0)]);
    assert_eq!(run.result, Err(RuntimeError::UndefinedVariable("i".to_string())));
    assert_eq!(run.environment.get(GLOBAL, "i"), None);
    let run = run_interpreter("let total = 0; for (let i = 1; i <= 4; i = i + 1) total = total + i;");
    assert_eq!(run.get("total"), num(10.0));
}

#[test]
fn print_keeps_the_values_in_order() {
    let run = run_interpreter("print 1; print \"two\"; print true; print null; function f() { } print f; print clock;");
    assert_eq!(run.output.len(), 6);
    assert_eq!(run.output[0], num(1.0));
    assert_eq!(run.output[1].text(), Some("two".to_string()));
    assert_eq!(run.output[2].text(), Some("true".to_string()));
    assert_eq!(run.output[3].text(), Some("null".to_string()));
    assert_eq!(run.output[4].text(), Some("<function f>".to_string()));
    assert_eq!(run.output[5].text(), Some("<function clock>".to_string()));
}

#[test]
fn runtime_errors() {
    assert_eq!(fails("y;"), RuntimeError::UndefinedVariable("y".to_string()));
    assert_eq!(fails("let x = y;"), RuntimeError::UndefinedVariable("y".to_string()));
    assert_eq!(fails("{ let z = 1; } z;"), RuntimeError::UndefinedVariable("z".to_string()));
    assert_eq!(fails("1 + \"a\";"), RuntimeError::TypeMismatch(Operator::Plus));
    assert_eq!(fails("-\"a\";"), RuntimeError::TypeMismatch(Operator::Minus));
    assert_eq!(fails("null < 1;"), RuntimeError::TypeMismatch(Operator::LessThan));
    assert_eq!(fails("let x = 1; x();"), RuntimeError::NotCallable);
    assert_eq!(fails("\"f\"();"), RuntimeError::NotCallable);
    assert_eq!(fails("1 + .;"), RuntimeError::InvalidNumber(".".to_string()));
    let run = run_with("let x = 1; x = y; x = 3;", vec![], FUEL);
    assert_eq!(run.result, Err(RuntimeError::UndefinedVariable("y".to_string())));
    assert_eq!(run.get("x"), num(1.0));
}

#[test]
fn the_right_side_is_evaluated_before_the_variable_is_looked_for() {
    let run = run_with("function f() { print 1; return 2; } x = f();", vec![], FUEL);
    assert_eq!(run.result, Err(RuntimeError::UndefinedVariable("x".to_string())));
    assert_eq!(run.output, vec![num(1.0)]);
}

#[test]
fn recursion_and_mutual_reference() {
    let run = run_interpreter(
        "function fact(n) { if (n <= 1) { return 1; } return n * fact(n - 1); }
         function even(n) { if (n == 0) { return true; } return odd(n - 1); }
         function odd(n) { if (n == 0) { return false; } return even(n - 1); }
         let a = fact(10); let b = even(10); let c = odd(7);",
    );
    assert_eq!(run.get("a"), num(3628800.0));
    assert_eq!(run.get("b"), Value::Bool(true));
    assert_eq!(run.get("c"), Value::Bool(true));
}

#[test]
fn fuel_bounds_loops_and_calls() {
    assert_eq!(run_with("while (true) { }", vec![], 50).result, Err(RuntimeError::OutOfFuel));
    assert_eq!(
        run_with("function f() { return f(); } f();", vec![], 50).result,
        Err(RuntimeError::OutOfFuel)
    );
    assert_eq!(run_with("function f() { return 1; } f();", vec![], 0).result, Err(RuntimeError::OutOfFuel));
    let counted = "let i = 0; while (i < 10) { i = i + 1; }";
    assert_eq!(run_with(counted, vec![], 9).result, Err(RuntimeError::OutOfFuel));
    let run = run_with(counted, vec![], 10);
    assert_eq!(run.result, Ok(()));
    assert_eq!(run.get("i"), num(10.0));
    assert_eq!(run_with("let x = 1 + 2; if (x) { print x; }", vec![], 0).result, Ok(()));
}

#[test]
fn host_functions_take_the_answers_of_the_host() {
    let code = "let t = clock(); let r = random(); let s = random();";
    let run = run_with(code, vec![], FUEL);
    assert_eq!(
        run.result,
        Err(RuntimeError::NativePending { name: "clock".to_string(), arguments: vec![] })
    );
    let run = run_with(code, vec![num(1700000000.5)], FUEL);
    assert_eq!(
        run.result,
        Err(RuntimeError::NativePending { name: "random".to_string(), arguments: vec![] })
    );
    assert_eq!(run.get("t"), num(1700000000.5));
    let run = run_with(code, vec![num(1700000000.5), num(0.25), num(0.75)], FUEL);
    assert_eq!(run.result, Ok(()));
    assert_eq!(run.get("t"), num(1700000000.5));
    assert_eq!(run.get("r"), num(0.25));
    assert_eq!(run.get("s"), num(0.75));
}

#[test]
fn an_interpreter_can_run_again_from_the_start() {
    let statements = Parser::new("print 1; let a = random(); print a;").parse().unwrap();
    let mut interpreter = Interpreter::new(statements);
    let mut environment = Environment::new();
    assert_eq!(
        interpreter.run(&mut environment, FUEL),
        Err(RuntimeError::NativePending { name: "random".to_string(), arguments: vec![] })
    );
    assert_eq!(interpreter.output(), &vec![num(1.0)]);
    interpreter.answer(num(0.5));
    interpreter.restart();
    assert_eq!(interpreter.output().len(), 0);
    let mut environment = Environment::new();
    assert_eq!(interpreter.run(&mut environment, FUEL), Ok(()));
    assert_eq!(interpreter.output(), &vec![num(1.0), num(0.5)]);
}

#[test]
fn a_function_with_a_scope_that_does_not_exist_cannot_be_called() {
    let mut environment = Environment::new();
    environment.define(
        GLOBAL,
        "f",
        Value::function(Callable::Js(JsFunction::new(Some("f"), vec![], BlockStatement::new(vec![]), 9))),
    );
    let statements = Parser::new("f();").parse().unwrap();
    let mut interpreter = Interpreter::new(statements);
    assert_eq!(interpreter.run(&mut environment, FUEL), Err(RuntimeError::InvalidClosure));
}

#[test]
fn execute_block_runs_in_the_given_scope() {
    let statements = Parser::new("let x = 1; x = x + 1; return x; x = 10;").parse().unwrap();
    let block = BlockStatement::new(statements);
    let mut environment = Environment::new();
    let mut interpreter = Interpreter::new(vec![]);
    assert_eq!(interpreter.execute_block(&block, &mut environment, GLOBAL, FUEL), Ok(num(2.0)));
    assert_eq!(environment.get(GLOBAL, "x"), Some(num(2.0)));
    let block = BlockStatement::new(Parser::new("x = 5;").parse().unwrap());
    assert_eq!(interpreter.execute_block(&block, &mut environment, GLOBAL, FUEL), Ok(Value::Null));
    assert_eq!(environment.get(GLOBAL, "x"), Some(num(5.0)));
}
