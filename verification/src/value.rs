//! Runtime values and the operators on them.

use vstd::prelude::*;
use crate::ast::{BlockStatement, SpecStmt};
use crate::ident::{clone_names, names_view, Ident};
use crate::number::{negated, number_less, numbers_equal, Number};
use crate::number::{double_difference, double_product, double_quotient, double_sum};
use crate::operator::Operator;

verus! {

/// The mathematical value of a [`RuntimeError`].
pub enum SpecRuntimeError {
    UndefinedVariable(Seq<char>),
    TypeMismatch(Operator),
    NotCallable,
    ArityMismatch { expected: nat, found: nat },
    InvalidNumber(Seq<char>),
    InvalidClosure,
    OutOfFuel,
    NativePending { name: Seq<char>, arguments: Seq<SpecValue> },
}

/// Why the evaluation of a program stopped.
#[derive(Debug, PartialEq)]
pub enum RuntimeError {
    /// A name was read or assigned that no scope on the chain binds.
    UndefinedVariable(String),
    /// The operator was applied to values of kinds it is not defined for.
    TypeMismatch(Operator),
    /// A type mismatch of its own kind: the value that was called is no
    /// function.
    NotCallable,
    /// A function was called with another number of arguments than it
    /// declares parameters.
    ArityMismatch { expected: usize, found: usize },
    /// The text of a number literal denotes no number.
    InvalidNumber(String),
    /// A function value refers to a scope that does not exist.
    InvalidClosure,
    /// The evaluation needed more nested steps than it was allowed.
    OutOfFuel,
    /// The program called the host function `name` with `arguments`, and the
    /// evaluator holds no answer for that call yet. No failure of the
    /// program: the host computes the answer, hands it to the evaluator, and
    /// runs the program again.
    NativePending { name: String, arguments: Vec<Value> },
}

impl View for RuntimeError {
    type V = SpecRuntimeError;

    open spec fn view(&self) -> SpecRuntimeError {
        match self {
            RuntimeError::UndefinedVariable(name) => SpecRuntimeError::UndefinedVariable(name@),
            RuntimeError::TypeMismatch(operator) => SpecRuntimeError::TypeMismatch(*operator),
            RuntimeError::NotCallable => SpecRuntimeError::NotCallable,
            RuntimeError::ArityMismatch { expected, found } => SpecRuntimeError::ArityMismatch {
                expected: *expected as nat,
                found: *found as nat,
            },
            RuntimeError::InvalidNumber(text) => SpecRuntimeError::InvalidNumber(text@),
            RuntimeError::InvalidClosure => SpecRuntimeError::InvalidClosure,
            RuntimeError::OutOfFuel => SpecRuntimeError::OutOfFuel,
            RuntimeError::NativePending { name, arguments } => SpecRuntimeError::NativePending {
                name: name@,
                arguments: values_view(arguments@),
            },
        }
    }
}

/// The views of a sequence of values, in order.
pub open spec fn values_view(values: Seq<Value>) -> Seq<SpecValue> {
    Seq::new(values.len(), |i: int| values[i]@)
}

/// The views of a sequence of values with one more value are the views of
/// the sequence with the view of that value.
pub proof fn lemma_values_view_push(values: Seq<Value>, value: Value)
    ensures
        values_view(values.push(value)) == values_view(values).push(value@),
{
    assert(values_view(values.push(value)) =~= values_view(values).push(value@));
}

/// A copy of `values`.
pub fn clone_values(values: &Vec<Value>) -> (r: Vec<Value>)
    ensures
        values_view(r@) == values_view(values@),
{
    let mut copy: Vec<Value> = Vec::new();
    let mut i: usize = 0;
    while i < values.len()
        invariant
            i <= values.len(),
            copy.len() == i,
            forall|k: int| 0 <= k < i ==> copy@[k]@ == values@[k]@,
        decreases values.len() - i,
    {
        copy.push(values[i].clone());
        i = i + 1;
    }
    assert(values_view(copy@) =~= values_view(values@));
    copy
}

/// The mathematical value of a [`Callable`].
#[allow(inconsistent_fields)]
pub enum SpecCallable {
    /// A function of the program: its name, where it has one, its parameters,
    /// its body, and the index of the scope it was created in.
    Js { name: Option<Seq<char>>, parameters: Seq<Seq<char>>, body: Seq<SpecStmt>, closure: nat },
    /// A function that the host provides.
    Native { name: Seq<char>, parameters: Seq<Seq<char>> },
}

/// The mathematical value of a [`Value`].
pub enum SpecValue {
    /// A number, by the bits of its double.
    Number(u64),
    String(Seq<char>),
    Bool(bool),
    Null,
    Function(SpecCallable),
}

/// A function of the program, with the scope it closes over.
#[derive(Debug)]
pub struct JsFunction {
    pub name: Option<String>,
    pub parameters: Vec<Ident>,
    pub body: BlockStatement,
    /// The index, in the environment, of the scope the function was created
    /// in.
    pub closure: usize,
}

/// A function that the host provides, known to the evaluator by its name and
/// its parameters.
#[derive(Debug)]
pub struct NativeFunction {
    pub name: String,
    pub arguments: Vec<Ident>,
}

/// What can be called: a function of the program or one of the host.
#[derive(Debug)]
pub enum Callable {
    Js(JsFunction),
    Native(NativeFunction),
}

/// A runtime value.
#[derive(Debug)]
pub enum Value {
    Number(Number),
    String(String),
    Bool(bool),
    Null,
    Function(Callable),
}

impl View for JsFunction {
    type V = SpecCallable;

    open spec fn view(&self) -> SpecCallable {
        SpecCallable::Js {
            name: match self.name {
                Some(name) => Some(name@),
                None => None,
            },
            parameters: names_view(self.parameters@),
            body: self.body@,
            closure: self.closure as nat,
        }
    }
}

impl View for NativeFunction {
    type V = SpecCallable;

    open spec fn view(&self) -> SpecCallable {
        SpecCallable::Native { name: self.name@, parameters: names_view(self.arguments@) }
    }
}

impl View for Callable {
    type V = SpecCallable;

    open spec fn view(&self) -> SpecCallable {
        match self {
            Callable::Js(function) => function@,
            Callable::Native(function) => function@,
        }
    }
}

impl View for Value {
    type V = SpecValue;

    open spec fn view(&self) -> SpecValue {
        match self {
            Value::Number(number) => SpecValue::Number(number.bits),
            Value::String(text) => SpecValue::String(text@),
            Value::Bool(b) => SpecValue::Bool(*b),
            Value::Null => SpecValue::Null,
            Value::Function(function) => SpecValue::Function(function@),
        }
    }
}

/// The name under which a function without a name goes.
pub open spec fn anonymous() -> Seq<char> {
    "<anonymous function>"@
}

/// The name of a function.
pub open spec fn callable_name(function: SpecCallable) -> Seq<char> {
    match function {
        SpecCallable::Js { name, .. } => match name {
            Some(name) => name,
            None => anonymous(),
        },
        SpecCallable::Native { name, .. } => name,
    }
}

/// The parameters of a function.
pub open spec fn callable_parameters(function: SpecCallable) -> Seq<Seq<char>> {
    match function {
        SpecCallable::Js { parameters, .. } => parameters,
        SpecCallable::Native { parameters, .. } => parameters,
    }
}

/// Truthiness: a number is true unless it is zero, a boolean is its own
/// value, `null` is false, strings and functions are true.
pub open spec fn truthy(value: SpecValue) -> bool {
    match value {
        SpecValue::Number(bits) => !numbers_equal(bits, 0),
        SpecValue::Bool(b) => b,
        SpecValue::Null => false,
        _ => true,
    }
}

/// Whether `a` comes before `b` in the lexicographic order of texts by the
/// codes of their characters.
pub open spec fn text_less(a: Seq<char>, b: Seq<char>) -> bool
    decreases a.len(),
{
    if b.len() == 0 {
        false
    } else if a.len() == 0 {
        true
    } else if a[0] != b[0] {
        a[0] < b[0]
    } else {
        text_less(a.skip(1), b.skip(1))
    }
}

/// `==`: numbers, strings and booleans are equal where their values are,
/// `null` is equal to `null`, functions are equal where their names are, and
/// values of different kinds are never equal.
pub open spec fn values_equal(a: SpecValue, b: SpecValue) -> bool {
    match (a, b) {
        (SpecValue::Number(x), SpecValue::Number(y)) => numbers_equal(x, y),
        (SpecValue::String(x), SpecValue::String(y)) => x == y,
        (SpecValue::Bool(x), SpecValue::Bool(y)) => x == y,
        (SpecValue::Null, SpecValue::Null) => true,
        (SpecValue::Function(f), SpecValue::Function(g)) => callable_name(f) == callable_name(g),
        _ => false,
    }
}

/// The kinds of values.
#[derive(Debug, Clone, Copy, PartialEq, Eq, Structural)]
pub enum Kind {
    Number,
    String,
    Bool,
    Null,
    Function,
}

/// The kind of a value.
pub open spec fn kind_of(value: SpecValue) -> Kind {
    match value {
        SpecValue::Number(_) => Kind::Number,
        SpecValue::String(_) => Kind::String,
        SpecValue::Bool(_) => Kind::Bool,
        SpecValue::Null => Kind::Null,
        SpecValue::Function(_) => Kind::Function,
    }
}

/// Equality never coerces and never fails: values of different kinds are
/// not equal, whatever they are, and `==` and `!=` have a value for every
/// pair of values.
pub proof fn lemma_equality_never_coerces(a: SpecValue, b: SpecValue)
    ensures
        kind_of(a) != kind_of(b) ==> !values_equal(a, b),
        binary_value(Operator::Equal, a, b) == Ok::<SpecValue, SpecRuntimeError>(
            SpecValue::Bool(values_equal(a, b)),
        ),
        binary_value(Operator::NotEqual, a, b) == Ok::<SpecValue, SpecRuntimeError>(
            SpecValue::Bool(!values_equal(a, b)),
        ),
        values_equal(a, b) == values_equal(b, a),
{
}

/// The logical operators and `!` take every value, by its truthiness.
pub proof fn lemma_truthiness_is_total(a: SpecValue, b: SpecValue)
    ensures
        binary_value(Operator::And, a, b) == Ok::<SpecValue, SpecRuntimeError>(
            SpecValue::Bool(truthy(a) && truthy(b)),
        ),
        binary_value(Operator::Or, a, b) == Ok::<SpecValue, SpecRuntimeError>(
            SpecValue::Bool(truthy(a) || truthy(b)),
        ),
        unary_value(Operator::Bang, a) == Ok::<SpecValue, SpecRuntimeError>(
            SpecValue::Bool(!truthy(a)),
        ),
        a is String ==> truthy(a),
        a is Function ==> truthy(a),
        a is Null ==> !truthy(a),
{
}

/// `<`: defined for two numbers and for two strings.
pub open spec fn values_less(a: SpecValue, b: SpecValue) -> Option<bool> {
    match (a, b) {
        (SpecValue::Number(x), SpecValue::Number(y)) => Some(number_less(x, y)),
        (SpecValue::String(x), SpecValue::String(y)) => Some(text_less(x, y)),
        _ => None,
    }
}

/// The result of the arithmetic operator `operator` on two numbers.
pub open spec fn arithmetic(operator: Operator, x: u64, y: u64) -> u64 {
    match operator {
        Operator::Plus => double_sum(x, y),
        Operator::Minus => double_difference(x, y),
        Operator::Asterisk => double_product(x, y),
        _ => double_quotient(x, y),
    }
}

/// The value of `left operator right`: `+` adds numbers and joins strings;
/// `-`, `*` and `/` take numbers; the order operators take numbers or
/// strings, where `>=` is "not `<`" and `<=` is "not `>`"; `==` and `!=` take
/// anything; `&&` and `||` take the truthiness of anything. Every other
/// pairing is a type mismatch, and so is an operator that takes one operand.
pub open spec fn binary_value(operator: Operator, left: SpecValue, right: SpecValue) -> Result<
    SpecValue,
    SpecRuntimeError,
> {
    match operator {
        Operator::Plus => match (left, right) {
            (SpecValue::Number(x), SpecValue::Number(y)) => Ok(
                SpecValue::Number(double_sum(x, y)),
            ),
            (SpecValue::String(x), SpecValue::String(y)) => Ok(SpecValue::String(x + y)),
            _ => Err(SpecRuntimeError::TypeMismatch(operator)),
        },
        Operator::Minus | Operator::Asterisk | Operator::Slash => match (left, right) {
            (SpecValue::Number(x), SpecValue::Number(y)) => Ok(
                SpecValue::Number(arithmetic(operator, x, y)),
            ),
            _ => Err(SpecRuntimeError::TypeMismatch(operator)),
        },
        Operator::LessThan => match values_less(left, right) {
            Some(b) => Ok(SpecValue::Bool(b)),
            None => Err(SpecRuntimeError::TypeMismatch(operator)),
        },
        Operator::GreaterThan => match values_less(right, left) {
            Some(b) => Ok(SpecValue::Bool(b)),
            None => Err(SpecRuntimeError::TypeMismatch(operator)),
        },
        Operator::GreaterThanOrEqual => match values_less(left, right) {
            Some(b) => Ok(SpecValue::Bool(!b)),
            None => Err(SpecRuntimeError::TypeMismatch(operator)),
        },
        Operator::LessThanOrEqual => match values_less(right, left) {
            Some(b) => Ok(SpecValue::Bool(!b)),
            None => Err(SpecRuntimeError::TypeMismatch(operator)),
        },
        Operator::Equal => Ok(SpecValue::Bool(values_equal(left, right))),
        Operator::NotEqual => Ok(SpecValue::Bool(!values_equal(left, right))),
        Operator::And => Ok(SpecValue::Bool(truthy(left) && truthy(right))),
        Operator::Or => Ok(SpecValue::Bool(truthy(left) || truthy(right))),
        _ => Err(SpecRuntimeError::TypeMismatch(operator)),
    }
}

/// The value of `operator operand`: `-` takes a number and flips its sign,
/// `!` takes anything and negates its truthiness. Every other operator is a
/// type mismatch.
pub open spec fn unary_value(operator: Operator, operand: SpecValue) -> Result<
    SpecValue,
    SpecRuntimeError,
> {
    match operator {
        Operator::Minus => match operand {
            SpecValue::Number(x) => Ok(SpecValue::Number(negated(x))),
            _ => Err(SpecRuntimeError::TypeMismatch(operator)),
        },
        Operator::Bang => Ok(SpecValue::Bool(!truthy(operand))),
        _ => Err(SpecRuntimeError::TypeMismatch(operator)),
    }
}

/// The text that stands for a value that is no number: a string is its own
/// text, a boolean `true` or `false`, `null` is `null`, and a function
/// `<function NAME>`. The text of a number is for a formatter of doubles to
/// give.
pub open spec fn value_text(value: SpecValue) -> Option<Seq<char>> {
    match value {
        SpecValue::Number(_) => None,
        SpecValue::String(text) => Some(text),
        SpecValue::Bool(b) => Some(
            if b {
                "true"@
            } else {
                "false"@
            },
        ),
        SpecValue::Null => Some("null"@),
        SpecValue::Function(function) => Some("<function "@ + callable_name(function) + ">"@),
    }
}

/// A value by its view, an error by its view.
pub open spec fn value_result_view(r: Result<Value, RuntimeError>) -> Result<
    SpecValue,
    SpecRuntimeError,
> {
    match r {
        Ok(value) => Ok(value@),
        Err(error) => Err(error@),
    }
}

/// Whether `a` comes before `b` in the order of strings.
///
/// Not verified: the body calls `PartialOrd::lt` of the standard library's
/// `String`, which orders strings lexicographically by their bytes, and so
/// by the codes of their characters.
#[verifier::external_body]
pub(crate) fn string_less(a: &String, b: &String) -> (r: bool)
    ensures
        r == text_less(a@, b@),
{
    a < b
}

impl Clone for JsFunction {
    fn clone(&self) -> (r: Self)
        ensures
            r@ == self@,
    {
        JsFunction {
            name: match &self.name {
                Some(name) => Some(name.clone()),
                None => None,
            },
            parameters: clone_names(&self.parameters),
            body: self.body.clone(),
            closure: self.closure,
        }
    }
}

impl Clone for NativeFunction {
    fn clone(&self) -> (r: Self)
        ensures
            r@ == self@,
    {
        NativeFunction { name: self.name.clone(), arguments: clone_names(&self.arguments) }
    }
}

impl Clone for Callable {
    fn clone(&self) -> (r: Self)
        ensures
            r@ == self@,
    {
        match self {
            Callable::Js(function) => Callable::Js(function.clone()),
            Callable::Native(function) => Callable::Native(function.clone()),
        }
    }
}

impl Clone for Value {
    fn clone(&self) -> (r: Self)
        ensures
            r@ == self@,
    {
        match self {
            Value::Number(number) => Value::Number(*number),
            Value::String(text) => Value::String(text.clone()),
            Value::Bool(b) => Value::Bool(*b),
            Value::Null => Value::Null,
            Value::Function(function) => Value::Function(function.clone()),
        }
    }
}

impl Clone for RuntimeError {
    fn clone(&self) -> (r: Self)
        ensures
            r@ == self@,
    {
        match self {
            RuntimeError::UndefinedVariable(name) => RuntimeError::UndefinedVariable(name.clone()),
            RuntimeError::TypeMismatch(operator) => RuntimeError::TypeMismatch(*operator),
            RuntimeError::NotCallable => RuntimeError::NotCallable,
            RuntimeError::ArityMismatch { expected, found } => RuntimeError::ArityMismatch {
                expected: *expected,
                found: *found,
            },
            RuntimeError::InvalidNumber(text) => RuntimeError::InvalidNumber(text.clone()),
            RuntimeError::InvalidClosure => RuntimeError::InvalidClosure,
            RuntimeError::OutOfFuel => RuntimeError::OutOfFuel,
            RuntimeError::NativePending { name, arguments } => RuntimeError::NativePending {
                name: name.clone(),
                arguments: clone_values(arguments),
            },
        }
    }
}

impl JsFunction {
    /// The function with the given name, parameters and body, created in the
    /// scope with the index `closure`.
    pub fn new(name: Option<&str>, parameters: Vec<Ident>, body: BlockStatement, closure: usize) -> (r:
        JsFunction)
        ensures
            r@ == (SpecCallable::Js {
                name: match name {
                    Some(name) => Some(name@),
                    None => None,
                },
                parameters: names_view(parameters@),
                body: body@,
                closure: closure as nat,
            }),
    {
        JsFunction {
            name: match name {
                Some(name) => Some(name.to_owned()),
                None => None,
            },
            parameters,
            body,
            closure,
        }
    }
}

impl NativeFunction {
    /// The host function with the given name and parameters.
    pub fn new(name: &str, arguments: Vec<Ident>) -> (r: NativeFunction)
        ensures
            r@ == (SpecCallable::Native { name: name@, parameters: names_view(arguments@) }),
    {
        NativeFunction { name: name.to_owned(), arguments }
    }
}

impl Callable {
    /// The name of the function; `<anonymous function>` where it has none.
    pub fn name(&self) -> (r: String)
        ensures
            r@ == callable_name(self@),
    {
        match self {
            Callable::Js(function) => match &function.name {
                Some(name) => name.clone(),
                None => "<anonymous function>".to_owned(),
            },
            Callable::Native(function) => function.name.clone(),
        }
    }

    /// The number of parameters that the function declares.
    pub fn arity(&self) -> (r: usize)
        ensures
            r == callable_parameters(self@).len(),
    {
        match self {
            Callable::Js(function) => function.parameters.len(),
            Callable::Native(function) => function.arguments.len(),
        }
    }
}

impl PartialEq for Value {
    fn eq(&self, other: &Self) -> (r: bool) {
        self.equals(other)
    }
}

impl vstd::std_specs::cmp::PartialEqSpecImpl for Value {
    open spec fn obeys_eq_spec() -> bool {
        true
    }

    open spec fn eq_spec(&self, other: &Self) -> bool {
        values_equal(self@, other@)
    }
}

impl Value {
    /// The value that is the number `number`.
    pub fn number(number: Number) -> (r: Value)
        ensures
            r@ == SpecValue::Number(number.bits),
    {
        Value::Number(number)
    }

    /// The value that is the string `string`.
    pub fn string(string: &str) -> (r: Value)
        ensures
            r@ == SpecValue::String(string@),
    {
        Value::String(string.to_owned())
    }

    /// The value `true` or `false`.
    pub fn bool(boolean: bool) -> (r: Value)
        ensures
            r@ == SpecValue::Bool(boolean),
    {
        Value::Bool(boolean)
    }

    /// The value `null`.
    pub fn null() -> (r: Value)
        ensures
            r@ == SpecValue::Null,
    {
        Value::Null
    }

    /// The value that is the function `function`.
    pub fn function(function: Callable) -> (r: Value)
        ensures
            r@ == SpecValue::Function(function@),
    {
        Value::Function(function)
    }

    /// The number that the value is; a type mismatch of unary `-` where it
    /// is none.
    pub fn to_number(&self) -> (r: Result<Number, RuntimeError>)
        ensures
            match r {
                Ok(number) => self@ == SpecValue::Number(number.bits),
                Err(error) => !(self@ is Number) && error@ == SpecRuntimeError::TypeMismatch(
                    Operator::Minus,
                ),
            },
    {
        match self {
            Value::Number(number) => Ok(*number),
            _ => Err(RuntimeError::TypeMismatch(Operator::Minus)),
        }
    }

    /// Truthiness: a number is true unless it is zero, a boolean is its own
    /// value, `null` is false, strings and functions are true.
    pub fn is_truthy(&self) -> (r: bool)
        ensures
            r == truthy(self@),
    {
        match self {
            Value::Number(number) => !number.equals(Number::zero()),
            Value::Bool(b) => *b,
            Value::Null => false,
            _ => true,
        }
    }

    /// `!self`: the negation of the truthiness.
    pub fn not(&self) -> (r: Value)
        ensures
            r@ == SpecValue::Bool(!truthy(self@)),
    {
        Value::Bool(!self.is_truthy())
    }

    /// Whether `self == other` holds in the language.
    pub fn equals(&self, other: &Value) -> (r: bool)
        ensures
            r == values_equal(self@, other@),
    {
        match (self, other) {
            (Value::Number(x), Value::Number(y)) => x.equals(*y),
            (Value::String(x), Value::String(y)) => *x == *y,
            (Value::Bool(x), Value::Bool(y)) => *x == *y,
            (Value::Null, Value::Null) => true,
            (Value::Function(f), Value::Function(g)) => {
                let a = f.name();
                let b = g.name();
                a == b
            },
            _ => false,
        }
    }

    /// Whether `self < other`, where both are numbers or both are strings.
    fn less(&self, other: &Value) -> (r: Option<bool>)
        ensures
            r == values_less(self@, other@),
    {
        match (self, other) {
            (Value::Number(x), Value::Number(y)) => Some(x.less_than(*y)),
            (Value::String(x), Value::String(y)) => Some(string_less(x, y)),
            _ => None,
        }
    }

    /// `self + other`: the sum of two numbers, or two strings joined.
    pub fn sum(&self, other: &Value) -> (r: Result<Value, RuntimeError>)
        ensures
            value_result_view(r) == binary_value(Operator::Plus, self@, other@),
    {
        match (self, other) {
            (Value::Number(x), Value::Number(y)) => Ok(Value::Number(x.add(*y))),
            (Value::String(x), Value::String(y)) => Ok(
                Value::String(x.clone().concat(y.as_str())),
            ),
            _ => Err(RuntimeError::TypeMismatch(Operator::Plus)),
        }
    }

    /// `self - other` on two numbers.
    pub fn sub(&self, other: &Value) -> (r: Result<Value, RuntimeError>)
        ensures
            value_result_view(r) == binary_value(Operator::Minus, self@, other@),
    {
        match (self, other) {
            (Value::Number(x), Value::Number(y)) => Ok(Value::Number(x.subtract(*y))),
            _ => Err(RuntimeError::TypeMismatch(Operator::Minus)),
        }
    }

    /// `self * other` on two numbers.
    pub fn mult(&self, other: &Value) -> (r: Result<Value, RuntimeError>)
        ensures
            value_result_view(r) == binary_value(Operator::Asterisk, self@, other@),
    {
        match (self, other) {
            (Value::Number(x), Value::Number(y)) => Ok(Value::Number(x.multiply(*y))),
            _ => Err(RuntimeError::TypeMismatch(Operator::Asterisk)),
        }
    }

    /// `self / other` on two numbers.
    pub fn div(&self, other: &Value) -> (r: Result<Value, RuntimeError>)
        ensures
            value_result_view(r) == binary_value(Operator::Slash, self@, other@),
    {
        match (self, other) {
            (Value::Number(x), Value::Number(y)) => Ok(Value::Number(x.divide(*y))),
            _ => Err(RuntimeError::TypeMismatch(Operator::Slash)),
        }
    }

    /// `self > other` on two numbers or two strings.
    pub fn gt(&self, other: &Value) -> (r: Result<Value, RuntimeError>)
        ensures
            value_result_view(r) == binary_value(Operator::GreaterThan, self@, other@),
    {
        match other.less(self) {
            Some(b) => Ok(Value::Bool(b)),
            None => Err(RuntimeError::TypeMismatch(Operator::GreaterThan)),
        }
    }

    /// `self < other` on two numbers or two strings.
    pub fn lt(&self, other: &Value) -> (r: Result<Value, RuntimeError>)
        ensures
            value_result_view(r) == binary_value(Operator::LessThan, self@, other@),
    {
        match self.less(other) {
            Some(b) => Ok(Value::Bool(b)),
            None => Err(RuntimeError::TypeMismatch(Operator::LessThan)),
        }
    }

    /// `self >= other` on two numbers or two strings: not `self < other`.
    pub fn gte(&self, other: &Value) -> (r: Result<Value, RuntimeError>)
        ensures
            value_result_view(r) == binary_value(Operator::GreaterThanOrEqual, self@, other@),
    {
        match self.less(other) {
            Some(b) => Ok(Value::Bool(!b)),
            None => Err(RuntimeError::TypeMismatch(Operator::GreaterThanOrEqual)),
        }
    }

    /// `self <= other` on two numbers or two strings: not `self > other`.
    pub fn lte(&self, other: &Value) -> (r: Result<Value, RuntimeError>)
        ensures
            value_result_view(r) == binary_value(Operator::LessThanOrEqual, self@, other@),
    {
        match other.less(self) {
            Some(b) => Ok(Value::Bool(!b)),
            None => Err(RuntimeError::TypeMismatch(Operator::LessThanOrEqual)),
        }
    }

    /// `self == other`, as a value.
    pub fn eq(&self, other: &Value) -> (r: Value)
        ensures
            r@ == SpecValue::Bool(values_equal(self@, other@)),
    {
        Value::Bool(self.equals(other))
    }

    /// `self != other`, as a value.
    pub fn neq(&self, other: &Value) -> (r: Value)
        ensures
            r@ == SpecValue::Bool(!values_equal(self@, other@)),
    {
        Value::Bool(!self.equals(other))
    }

    /// `self && other`: whether both are truthy.
    pub fn and(&self, other: &Value) -> (r: Value)
        ensures
            r@ == SpecValue::Bool(truthy(self@) && truthy(other@)),
    {
        Value::Bool(self.is_truthy() && other.is_truthy())
    }

    /// `self || other`: whether one of the two is truthy.
    pub fn or(&self, other: &Value) -> (r: Value)
        ensures
            r@ == SpecValue::Bool(truthy(self@) || truthy(other@)),
    {
        Value::Bool(self.is_truthy() || other.is_truthy())
    }

    /// The value of `self operator other`.
    pub fn binary(&self, operator: Operator, other: &Value) -> (r: Result<Value, RuntimeError>)
        ensures
            value_result_view(r) == binary_value(operator, self@, other@),
    {
        match operator {
            Operator::Plus => self.sum(other),
            Operator::Minus => self.sub(other),
            Operator::Asterisk => self.mult(other),
            Operator::Slash => self.div(other),
            Operator::GreaterThan => self.gt(other),
            Operator::GreaterThanOrEqual => self.gte(other),
            Operator::LessThan => self.lt(other),
            Operator::LessThanOrEqual => self.lte(other),
            Operator::Equal => Ok(self.eq(other)),
            Operator::NotEqual => Ok(self.neq(other)),
            Operator::And => Ok(self.and(other)),
            Operator::Or => Ok(self.or(other)),
            _ => Err(RuntimeError::TypeMismatch(operator)),
        }
    }

    /// The value of `operator self`.
    pub fn unary(&self, operator: Operator) -> (r: Result<Value, RuntimeError>)
        ensures
            value_result_view(r) == unary_value(operator, self@),
    {
        match operator {
            Operator::Minus => match self.to_number() {
                Ok(number) => Ok(Value::Number(number.negate())),
                Err(error) => Err(error),
            },
            Operator::Bang => Ok(self.not()),
            _ => Err(RuntimeError::TypeMismatch(operator)),
        }
    }

    /// The text that stands for the value, where it is no number: a string
    /// is its own text, a boolean `true` or `false`, `null` is `null`, and a
    /// function `<function NAME>`. For a number the result is `None`: its
    /// text is for a formatter of doubles to give.
    pub fn text(&self) -> (r: Option<String>)
        ensures
            match r {
                Some(text) => value_text(self@) == Some(text@),
                None => value_text(self@) is None,
            },
    {
        match self {
            Value::Number(_) => None,
            Value::String(text) => Some(text.clone()),
            Value::Bool(b) => Some(
                if *b {
                    "true".to_owned()
                } else {
                    "false".to_owned()
                },
            ),
            Value::Null => Some("null".to_owned()),
            Value::Function(function) => {
                let name = function.name();
                Some("<function ".to_owned().concat(name.as_str()).concat(">"))
            },
        }
    }
}

} // verus!
