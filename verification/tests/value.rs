use jslite::ast::BlockStatement;
use jslite::ident::Ident;
use jslite::number::Number;
use jslite::operator::Operator;
use jslite::value::{Callable, JsFunction, NativeFunction, RuntimeError, Value};

fn num(x: f64) -> Value {
    Value::Number(Number::from_bits(x.to_bits()))
}

fn text(s: &str) -> Value {
    Value::String(s.to_string())
}

#[test]
fn test_is_truthy() {
    assert_eq!(num(0.0).is_truthy(), false);
    assert_eq!(num(1.0).is_truthy(), true);
    assert_eq!(Value::Bool(false).is_truthy(), false);
    assert_eq!(Value::Bool(true).is_truthy(), true);
    assert_eq!(Value::Null.is_truthy(), false);
    assert_eq!(Value::String("".to_string()).is_truthy(), true);
    assert_eq!(Value::String("foo".to_string()).is_truthy(), true);
}

#[test]
fn test_sum() {
    assert_eq!(num(1.0).sum(&num(2.0)), Ok(num(3.0)));
    assert_eq!(
        Value::String("foo".to_string()).sum(&Value::String("bar".to_string())),
        Ok(Value::String("foobar".to_string()))
    );
}

#[test]
fn test_sub() {
    assert_eq!(num(1.0).sub(&num(2.0)), Ok(num(-1.0)));
}

#[test]
fn test_mult() {
    assert_eq!(num(1.0).mult(&num(2.0)), Ok(num(2.0)));
}

#[test]
fn test_div() {
    assert_eq!(num(1.0).div(&num(2.0)), Ok(num(0.5)));
}

#[test]
fn test_to_number() {
    assert_eq!(f64::from_bits(num(1.0).to_number().unwrap().to_bits()), 1.0);
}

#[test]
fn test_gt() {
    assert_eq!(num(1.0).gt(&num(2.0)), Ok(Value::Bool(false)));
    assert_eq!(num(2.0).gt(&num(1.0)), Ok(Value::Bool(true)));
    assert_eq!(text("foo").gt(&text("bar")), Ok(Value::Bool(true)));
    assert_eq!(text("bar").gt(&text("foo")), Ok(Value::Bool(false)));
}

#[test]
fn test_lt() {
    assert_eq!(num(1.0).lt(&num(2.0)), Ok(Value::Bool(true)));
    assert_eq!(num(2.0).lt(&num(1.0)), Ok(Value::Bool(false)));
    assert_eq!(text("foo").lt(&text("bar")), Ok(Value::Bool(false)));
    assert_eq!(text("bar").lt(&text("foo")), Ok(Value::Bool(true)));
}

#[test]
fn test_gte() {
    assert_eq!(num(1.0).gte(&num(2.0)), Ok(Value::Bool(false)));
    assert_eq!(num(2.0).gte(&num(1.0)), Ok(Value::Bool(true)));
    assert_eq!(text("foo").gte(&text("bar")), Ok(Value::Bool(true)));
    assert_eq!(text("bar").gte(&text("foo")), Ok(Value::Bool(false)));
}

#[test]
fn test_lte() {
    assert_eq!(num(1.0).lte(&num(2.0)), Ok(Value::Bool(true)));
    assert_eq!(num(2.0).lte(&num(1.0)), Ok(Value::Bool(false)));
    assert_eq!(text("foo").lte(&text("bar")), Ok(Value::Bool(false)));
    assert_eq!(text("bar").lte(&text("foo")), Ok(Value::Bool(true)));
}

#[test]
fn test_eq() {
    assert_eq!(num(1.0).eq(&num(2.0)), Value::Bool(false));
    assert_eq!(num(2.0).eq(&num(1.0)), Value::Bool(false));
    assert_eq!(text("foo").eq(&text("bar")), Value::Bool(false));
    assert_eq!(text("bar").eq(&text("foo")), Value::Bool(false));
    assert_eq!(Value::Null.eq(&Value::Null), Value::Bool(true));
    assert_eq!(Value::Null.eq(&num(1.0)), Value::Bool(false));
}

#[test]
fn operator_edge_cases() {
    assert_eq!(text("a").sum(&text("b")), Ok(text("ab")));
    assert_eq!(num(1.0).eq(&text("1")), Value::Bool(false));
    assert_eq!(text("1").eq(&num(1.0)), Value::Bool(false));
    assert_eq!(num(1.0).eq(&Value::Null), Value::Bool(false));
    assert_eq!(Value::Null.eq(&Value::Null), Value::Bool(true));
    assert_eq!(Value::Bool(true).eq(&Value::Bool(true)), Value::Bool(true));
    assert_eq!(Value::Bool(true).neq(&Value::Bool(false)), Value::Bool(true));
    assert_eq!(num(0.0).is_truthy(), false);
    assert_eq!(num(-0.0).is_truthy(), false);
    assert_eq!(num(f64::NAN).is_truthy(), true);
    assert_eq!(text("").is_truthy(), true);
    assert_eq!(num(0.0).eq(&num(-0.0)), Value::Bool(true));
    assert_eq!(num(f64::NAN).eq(&num(f64::NAN)), Value::Bool(false));
    assert_eq!(text("x").eq(&text("x")), Value::Bool(true));
}

#[test]
fn type_mismatches_name_the_operator() {
    assert_eq!(num(1.0).sum(&text("a")), Err(RuntimeError::TypeMismatch(Operator::Plus)));
    assert_eq!(text("a").sum(&num(1.0)), Err(RuntimeError::TypeMismatch(Operator::Plus)));
    assert_eq!(Value::Null.sum(&Value::Null), Err(RuntimeError::TypeMismatch(Operator::Plus)));
    assert_eq!(text("a").sub(&text("b")), Err(RuntimeError::TypeMismatch(Operator::Minus)));
    assert_eq!(text("a").mult(&num(2.0)), Err(RuntimeError::TypeMismatch(Operator::Asterisk)));
    assert_eq!(Value::Bool(true).div(&num(2.0)), Err(RuntimeError::TypeMismatch(Operator::Slash)));
    assert_eq!(num(1.0).lt(&text("a")), Err(RuntimeError::TypeMismatch(Operator::LessThan)));
    assert_eq!(Value::Null.gt(&Value::Null), Err(RuntimeError::TypeMismatch(Operator::GreaterThan)));
    assert_eq!(
        Value::Bool(true).gte(&Value::Bool(false)),
        Err(RuntimeError::TypeMismatch(Operator::GreaterThanOrEqual))
    );
    assert_eq!(
        text("a").lte(&Value::Null),
        Err(RuntimeError::TypeMismatch(Operator::LessThanOrEqual))
    );
    assert_eq!(text("a").to_number(), Err(RuntimeError::TypeMismatch(Operator::Minus)));
    assert_eq!(text("a").unary(Operator::Minus), Err(RuntimeError::TypeMismatch(Operator::Minus)));
    assert_eq!(num(1.0).unary(Operator::Plus), Err(RuntimeError::TypeMismatch(Operator::Plus)));
    assert_eq!(
        num(1.0).binary(Operator::Bang, &num(1.0)),
        Err(RuntimeError::TypeMismatch(Operator::Bang))
    );
    assert_eq!(
        num(1.0).binary(Operator::LogicalAnd, &num(1.0)),
        Err(RuntimeError::TypeMismatch(Operator::LogicalAnd))
    );
}

#[test]
fn binary_and_unary_dispatch_on_the_operator() {
    assert_eq!(num(6.0).binary(Operator::Plus, &num(3.0)), Ok(num(9.0)));
    assert_eq!(num(6.0).binary(Operator::Minus, &num(3.0)), Ok(num(3.0)));
    assert_eq!(num(6.0).binary(Operator::Asterisk, &num(3.0)), Ok(num(18.0)));
    assert_eq!(num(6.0).binary(Operator::Slash, &num(3.0)), Ok(num(2.0)));
    assert_eq!(num(6.0).binary(Operator::GreaterThan, &num(3.0)), Ok(Value::Bool(true)));
    assert_eq!(num(6.0).binary(Operator::GreaterThanOrEqual, &num(6.0)), Ok(Value::Bool(true)));
    assert_eq!(num(6.0).binary(Operator::LessThan, &num(3.0)), Ok(Value::Bool(false)));
    assert_eq!(num(6.0).binary(Operator::LessThanOrEqual, &num(6.0)), Ok(Value::Bool(true)));
    assert_eq!(num(6.0).binary(Operator::Equal, &num(6.0)), Ok(Value::Bool(true)));
    assert_eq!(num(6.0).binary(Operator::NotEqual, &num(6.0)), Ok(Value::Bool(false)));
    assert_eq!(num(6.0).binary(Operator::And, &num(0.0)), Ok(Value::Bool(false)));
    assert_eq!(num(6.0).binary(Operator::Or, &num(0.0)), Ok(Value::Bool(true)));
    assert_eq!(num(6.0).unary(Operator::Minus), Ok(num(-6.0)));
    assert_eq!(num(6.0).unary(Operator::Bang), Ok(Value::Bool(false)));
    assert_eq!(Value::Null.not(), Value::Bool(true));
    assert_eq!(text("a").and(&Value::Null), Value::Bool(false));
    assert_eq!(text("a").or(&Value::Null), Value::Bool(true));
}

#[test]
fn strings_are_ordered_by_character_codes() {
    assert_eq!(text("").lt(&text("a")), Ok(Value::Bool(true)));
    assert_eq!(text("a").lt(&text("")), Ok(Value::Bool(false)));
    assert_eq!(text("a").lt(&text("a")), Ok(Value::Bool(false)));
    assert_eq!(text("a").gte(&text("a")), Ok(Value::Bool(true)));
    assert_eq!(text("ab").lt(&text("b")), Ok(Value::Bool(true)));
    assert_eq!(text("Z").lt(&text("a")), Ok(Value::Bool(true)));
    assert_eq!(text("abc").lt(&text("abd")), Ok(Value::Bool(true)));
    assert_eq!(text("abc").lt(&text("ab")), Ok(Value::Bool(false)));
    assert_eq!(text("é").gt(&text("z")), Ok(Value::Bool(true)));
}

#[test]
fn functions_are_equal_by_name() {
    let f = Value::function(Callable::Js(JsFunction::new(
        Some("f"),
        vec![Ident::new("a")],
        BlockStatement::new(vec![]),
        0,
    )));
    let also_f = Value::function(Callable::Native(NativeFunction::new("f", vec![])));
    let g = Value::function(Callable::Js(JsFunction::new(
        Some("g"),
        vec![Ident::new("a")],
        BlockStatement::new(vec![]),
        0,
    )));
    assert_eq!(f.eq(&also_f), Value::Bool(true));
    assert_eq!(f.eq(&g), Value::Bool(false));
    assert_eq!(f.eq(&Value::Null), Value::Bool(false));
    assert!(f == f.clone());
    assert!(f != g);
    assert_eq!(f.is_truthy(), true);
}

#[test]
fn callables_know_their_name_and_arity() {
    let f = Callable::Js(JsFunction::new(
        Some("f"),
        vec![Ident::new("a"), Ident::new("b")],
        BlockStatement::new(vec![]),
        3,
    ));
    assert_eq!(f.name(), "f");
    assert_eq!(f.arity(), 2);
    let anonymous = Callable::Js(JsFunction::new(None, vec![], BlockStatement::new(vec![]), 0));
    assert_eq!(anonymous.name(), "<anonymous function>");
    assert_eq!(anonymous.arity(), 0);
    let clock = Callable::Native(NativeFunction::new("clock", vec![]));
    assert_eq!(clock.name(), "clock");
    assert_eq!(clock.arity(), 0);
}

#[test]
fn values_have_a_text_unless_they_are_numbers() {
    assert_eq!(text("hello").text(), Some("hello".to_string()));
    assert_eq!(Value::bool(true).text(), Some("true".to_string()));
    assert_eq!(Value::bool(false).text(), Some("false".to_string()));
    assert_eq!(Value::null().text(), Some("null".to_string()));
    assert_eq!(num(1.0).text(), None);
    let f = Value::function(Callable::Native(NativeFunction::new("clock", vec![])));
    assert_eq!(f.text(), Some("<function clock>".to_string()));
    let anonymous = Value::function(Callable::Js(JsFunction::new(
        None,
        vec![],
        BlockStatement::new(vec![]),
        0,
    )));
    assert_eq!(anonymous.text(), Some("<function <anonymous function>>".to_string()));
    assert_eq!(Value::string("s"), text("s"));
    assert_eq!(Value::number(Number::from_bits(2.5f64.to_bits())), num(2.5));
}
