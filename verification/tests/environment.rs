use jslite::environment::{Environment, GLOBAL};
use jslite::number::Number;
use jslite::value::{Callable, NativeFunction, Value};

fn num(x: f64) -> Value {
    Value::Number(Number::from_bits(x.to_bits()))
}

#[test]
fn enclosing() {
    let mut environment = Environment::new();
    let outer = GLOBAL;
    let inner = environment.new_enclosing(outer);

    environment.define(outer, "a", num(1.0));

    assert_eq!(environment.get(inner, "a"), Some(num(1.0)));
}

#[test]
fn a_new_environment_knows_the_host_functions() {
    let environment = Environment::new();
    assert_eq!(environment.len(), 1);
    assert_eq!(
        environment.get(GLOBAL, "clock"),
        Some(Value::function(Callable::Native(NativeFunction::new("clock", vec![]))))
    );
    assert_eq!(
        environment.get(GLOBAL, "random"),
        Some(Value::function(Callable::Native(NativeFunction::new("random", vec![]))))
    );
    assert!(environment.has(GLOBAL, "clock"));
    assert!(!environment.has(GLOBAL, "x"));
    assert_eq!(environment.get(GLOBAL, "x"), None);
    assert_eq!(environment.contents(GLOBAL).len(), 2);
}

#[test]
fn define_shadows_and_assign_does_not_declare() {
    let mut environment = Environment::new();
    let inner = environment.new_enclosing(GLOBAL);
    let innermost = environment.new_enclosing(inner);
    assert_eq!((inner, innermost, environment.len()), (1, 2, 3));

    environment.define(GLOBAL, "x", num(1.0));
    environment.define(inner, "x", num(2.0));
    assert_eq!(environment.get(innermost, "x"), Some(num(2.0)));
    assert_eq!(environment.get(inner, "x"), Some(num(2.0)));
    assert_eq!(environment.get(GLOBAL, "x"), Some(num(1.0)));

    assert_eq!(environment.assign(innermost, "x", num(3.0)), true);
    assert_eq!(environment.get(innermost, "x"), Some(num(3.0)));
    assert_eq!(environment.get(inner, "x"), Some(num(3.0)));
    assert_eq!(environment.get(GLOBAL, "x"), Some(num(1.0)));
    assert!(!environment.has(GLOBAL, "y"));

    assert_eq!(environment.assign(innermost, "y", num(4.0)), false);
    assert_eq!(environment.get(innermost, "y"), None);
    assert_eq!(environment.get(GLOBAL, "y"), None);

    environment.define(GLOBAL, "y", Value::Null);
    assert_eq!(environment.assign(innermost, "y", num(4.0)), true);
    assert_eq!(environment.get(GLOBAL, "y"), Some(num(4.0)));
    assert_eq!(environment.contents(inner).len(), 1);
    assert_eq!(environment.contents(innermost).len(), 0);
}

#[test]
fn defining_a_name_again_replaces_its_value() {
    let mut environment = Environment::new();
    environment.define(GLOBAL, "x", num(1.0));
    environment.define(GLOBAL, "z", num(0.0));
    environment.define(GLOBAL, "x", Value::string("two"));
    assert_eq!(environment.get(GLOBAL, "x"), Some(Value::string("two")));
    assert_eq!(environment.assign(GLOBAL, "x", Value::Bool(true)), true);
    assert_eq!(environment.get(GLOBAL, "x"), Some(Value::Bool(true)));
    let contents = environment.contents(GLOBAL);
    assert_eq!(contents.len(), 4);
    let xs: Vec<_> = contents.iter().filter(|b| b.name == "x").collect();
    assert_eq!(xs.len(), 1);
    assert_eq!(xs[0].value, Value::Bool(true));
}

#[test]
fn a_scope_outside_the_environment_binds_nothing() {
    let environment = Environment::new();
    assert_eq!(environment.get(7, "clock"), None);
    assert!(!environment.has(7, "clock"));
}

#[test]
fn a_clone_is_a_copy_of_its_own() {
    let mut environment = Environment::new();
    let inner = environment.new_enclosing(GLOBAL);
    environment.define(inner, "x", num(1.0));
    let mut copy = environment.clone();
    assert_eq!(copy.len(), 2);
    assert_eq!(copy.get(inner, "x"), Some(num(1.0)));
    assert_eq!(copy.assign(inner, "x", num(2.0)), true);
    assert_eq!(copy.get(inner, "x"), Some(num(2.0)));
    assert_eq!(environment.get(inner, "x"), Some(num(1.0)));
}
