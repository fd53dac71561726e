//! The abstract syntax tree: literals, expressions and statements.

use vstd::prelude::*;
use crate::ident::{clone_names, names_view, Ident};
use crate::operator::Operator;

verus! {

/// The mathematical value of a [`ParserValue`].
#[allow(inconsistent_fields)]
pub enum SpecLiteral {
    String(Seq<char>),
    /// A number, still as the text of its literal.
    Number(Seq<char>),
    Bool(bool),
    Null,
    Function { ident: Option<Seq<char>>, params: Seq<Seq<char>>, body: Seq<SpecStmt> },
}

/// The mathematical value of an [`Expression`].
pub enum SpecExpr {
    Variable(Seq<char>),
    Grouping(Box<SpecExpr>),
    Literal(SpecLiteral),
    Assignement { ident: Seq<char>, value: Box<SpecExpr> },
    Unary { operator: Operator, right: Box<SpecExpr> },
    Binary { left: Box<SpecExpr>, operator: Operator, right: Box<SpecExpr> },
    Call { callee: Box<SpecExpr>, arguments: Seq<SpecExpr> },
}

/// The mathematical value of a [`Statement`].
#[allow(inconsistent_fields)]
pub enum SpecStmt {
    Let { ident: Seq<char>, expression: Option<SpecExpr> },
    If { condition: SpecExpr, consequence: Box<SpecStmt>, alternative: Option<Box<SpecStmt>> },
    While { condition: SpecExpr, body: Box<SpecStmt> },
    Block(Seq<SpecStmt>),
    Expression(SpecExpr),
    Print(SpecExpr),
    Function { ident: Seq<char>, parameters: Seq<Seq<char>>, body: Seq<SpecStmt> },
    Return(SpecExpr),
}

/// A constant of the source text. A number keeps the text of its literal; a
/// function keeps its parameters and body.
#[derive(Debug, PartialEq)]
pub enum ParserValue {
    String(String),
    Number(String),
    Bool(bool),
    Null,
    Function { ident: Option<Ident>, params: Vec<Ident>, body: BlockStatement },
}

/// An expression.
#[derive(Debug, PartialEq)]
pub enum Expression {
    Variable(Ident),
    Grouping(Box<Expression>),
    Literal(ParserValue),
    Assignement { ident: Ident, value: Box<Expression> },
    Unary { operator: Operator, right: Box<Expression> },
    Binary { left: Box<Expression>, operator: Operator, right: Box<Expression> },
    Call { callee: Box<Expression>, arguments: Vec<Expression> },
}

/// The statements between two braces, in order.
#[derive(Debug, PartialEq)]
pub struct BlockStatement(pub Vec<Statement>);

/// `let ident = expression`, or `let ident` where `expression` is `None`.
#[derive(Debug, PartialEq)]
pub struct LetStatement {
    pub ident: Ident,
    pub expression: Option<Expression>,
}

/// `if (condition) consequence else alternative`.
#[derive(Debug, PartialEq)]
pub struct IfStatement {
    pub condition: Expression,
    pub consequence: Box<Statement>,
    pub alternative: Option<Box<Statement>>,
}

/// `while (condition) body`.
#[derive(Debug, PartialEq)]
pub struct WhileStatement {
    pub condition: Expression,
    pub body: Box<Statement>,
}

/// `function ident(parameters) body`.
#[derive(Debug, PartialEq)]
pub struct FunctionStatement {
    pub ident: Ident,
    pub parameters: Vec<Ident>,
    pub body: BlockStatement,
}

/// A statement.
#[derive(Debug, PartialEq)]
pub enum Statement {
    Let(LetStatement),
    If(IfStatement),
    While(WhileStatement),
    Block(BlockStatement),
    Expression(Expression),
    Print(Expression),
    Function(FunctionStatement),
    Return(Expression),
}

/// The view of a literal.
pub open spec fn literal_view(value: ParserValue) -> SpecLiteral
    decreases value,
{
    match value {
        ParserValue::String(text) => SpecLiteral::String(text@),
        ParserValue::Number(text) => SpecLiteral::Number(text@),
        ParserValue::Bool(b) => SpecLiteral::Bool(b),
        ParserValue::Null => SpecLiteral::Null,
        ParserValue::Function { ident, params, body } => SpecLiteral::Function {
            ident: match ident {
                Some(name) => Some(name@),
                None => None,
            },
            params: names_view(params@),
            body: Seq::new(
                body.0@.len(),
                |i: int|
                    if 0 <= i < body.0@.len() {
                        stmt_view(body.0@[i])
                    } else {
                        SpecStmt::Block(Seq::empty())
                    },
            ),
        },
    }
}

/// The view of an expression.
pub open spec fn expr_view(expression: Expression) -> SpecExpr
    decreases expression,
{
    match expression {
        Expression::Variable(ident) => SpecExpr::Variable(ident@),
        Expression::Grouping(inner) => SpecExpr::Grouping(Box::new(expr_view(*inner))),
        Expression::Literal(value) => SpecExpr::Literal(literal_view(value)),
        Expression::Assignement { ident, value } => SpecExpr::Assignement {
            ident: ident@,
            value: Box::new(expr_view(*value)),
        },
        Expression::Unary { operator, right } => SpecExpr::Unary {
            operator,
            right: Box::new(expr_view(*right)),
        },
        Expression::Binary { left, operator, right } => SpecExpr::Binary {
            left: Box::new(expr_view(*left)),
            operator,
            right: Box::new(expr_view(*right)),
        },
        Expression::Call { callee, arguments } => SpecExpr::Call {
            callee: Box::new(expr_view(*callee)),
            arguments: Seq::new(
                arguments@.len(),
                |i: int|
                    if 0 <= i < arguments@.len() {
                        expr_view(arguments@[i])
                    } else {
                        SpecExpr::Literal(SpecLiteral::Null)
                    },
            ),
        },
    }
}

/// The view of a statement.
pub open spec fn stmt_view(statement: Statement) -> SpecStmt
    decreases statement,
{
    match statement {
        Statement::Let(stmt) => SpecStmt::Let {
            ident: stmt.ident@,
            expression: match stmt.expression {
                Some(e) => Some(expr_view(e)),
                None => None,
            },
        },
        Statement::If(stmt) => SpecStmt::If {
            condition: expr_view(stmt.condition),
            consequence: Box::new(stmt_view(*stmt.consequence)),
            alternative: match stmt.alternative {
                Some(a) => Some(Box::new(stmt_view(*a))),
                None => None,
            },
        },
        Statement::While(stmt) => SpecStmt::While {
            condition: expr_view(stmt.condition),
            body: Box::new(stmt_view(*stmt.body)),
        },
        Statement::Block(block) => SpecStmt::Block(
            Seq::new(
                block.0@.len(),
                |i: int|
                    if 0 <= i < block.0@.len() {
                        stmt_view(block.0@[i])
                    } else {
                        SpecStmt::Block(Seq::empty())
                    },
            ),
        ),
        Statement::Expression(e) => SpecStmt::Expression(expr_view(e)),
        Statement::Print(e) => SpecStmt::Print(expr_view(e)),
        Statement::Function(stmt) => SpecStmt::Function {
            ident: stmt.ident@,
            parameters: names_view(stmt.parameters@),
            body: Seq::new(
                stmt.body.0@.len(),
                |i: int|
                    if 0 <= i < stmt.body.0@.len() {
                        stmt_view(stmt.body.0@[i])
                    } else {
                        SpecStmt::Block(Seq::empty())
                    },
            ),
        },
        Statement::Return(e) => SpecStmt::Return(expr_view(e)),
    }
}

/// The views of a sequence of statements, in order.
pub open spec fn stmts_view(statements: Seq<Statement>) -> Seq<SpecStmt> {
    Seq::new(statements.len(), |i: int| stmt_view(statements[i]))
}

/// The views of a sequence of expressions, in order.
pub open spec fn exprs_view(expressions: Seq<Expression>) -> Seq<SpecExpr> {
    Seq::new(expressions.len(), |i: int| expr_view(expressions[i]))
}

impl View for ParserValue {
    type V = SpecLiteral;

    open spec fn view(&self) -> SpecLiteral {
        literal_view(*self)
    }
}

impl View for Expression {
    type V = SpecExpr;

    open spec fn view(&self) -> SpecExpr {
        expr_view(*self)
    }
}

impl View for Statement {
    type V = SpecStmt;

    open spec fn view(&self) -> SpecStmt {
        stmt_view(*self)
    }
}

impl View for BlockStatement {
    type V = Seq<SpecStmt>;

    open spec fn view(&self) -> Seq<SpecStmt> {
        stmts_view(self.0@)
    }
}

/// The view of a function literal holds the view of its body.
pub proof fn lemma_function_literal_view(value: ParserValue)
    requires
        value is Function,
    ensures
        value@ == (SpecLiteral::Function {
            ident: match value->ident {
                Some(name) => Some(name@),
                None => None,
            },
            params: names_view(value->params@),
            body: value->body@,
        }),
{
    assert(value@->body =~= value->body@);
}

/// The view of a call holds the views of its arguments.
pub proof fn lemma_call_view(expression: Expression)
    requires
        expression is Call,
    ensures
        expression@ == (SpecExpr::Call {
            callee: Box::new(expression->callee@),
            arguments: exprs_view(expression->arguments@),
        }),
{
    assert(expression@->arguments =~= exprs_view(expression->arguments@));
}

/// The view of a block statement is the block of the views of its statements.
pub proof fn lemma_block_view(statement: Statement)
    requires
        statement is Block,
    ensures
        statement@ == SpecStmt::Block(statement->Block_0@),
{
    assert(statement@->Block_0 =~= statement->Block_0@);
}

/// The view of a function declaration holds the view of its body.
pub proof fn lemma_function_statement_view(statement: Statement)
    requires
        statement is Function,
    ensures
        statement@ == (SpecStmt::Function {
            ident: statement->Function_0.ident@,
            parameters: names_view(statement->Function_0.parameters@),
            body: statement->Function_0.body@,
        }),
{
    assert(statement@->Function_body =~= statement->Function_0.body@);
}

/// A copy of the literal `value`.
pub fn clone_literal(value: &ParserValue) -> (r: ParserValue)
    ensures
        r@ == value@,
    decreases value,
{
    match value {
        ParserValue::String(text) => ParserValue::String(text.clone()),
        ParserValue::Number(text) => ParserValue::Number(text.clone()),
        ParserValue::Bool(b) => ParserValue::Bool(*b),
        ParserValue::Null => ParserValue::Null,
        ParserValue::Function { ident, params, body } => {
            let r = ParserValue::Function {
                ident: match ident {
                    Some(name) => Some(name.clone()),
                    None => None,
                },
                params: clone_names(params),
                body: BlockStatement(clone_statements(&body.0)),
            };
            proof {
                lemma_function_literal_view(r);
                lemma_function_literal_view(*value);
            }
            r
        },
    }
}

/// A copy of `expression`.
pub fn clone_expression(expression: &Expression) -> (r: Expression)
    ensures
        r@ == expression@,
    decreases expression,
{
    match expression {
        Expression::Variable(ident) => Expression::Variable(ident.clone()),
        Expression::Grouping(inner) => Expression::Grouping(Box::new(clone_expression(inner))),
        Expression::Literal(value) => Expression::Literal(clone_literal(value)),
        Expression::Assignement { ident, value } => Expression::Assignement {
            ident: ident.clone(),
            value: Box::new(clone_expression(value)),
        },
        Expression::Unary { operator, right } => Expression::Unary {
            operator: *operator,
            right: Box::new(clone_expression(right)),
        },
        Expression::Binary { left, operator, right } => Expression::Binary {
            left: Box::new(clone_expression(left)),
            operator: *operator,
            right: Box::new(clone_expression(right)),
        },
        Expression::Call { callee, arguments } => {
            let r = Expression::Call {
                callee: Box::new(clone_expression(callee)),
                arguments: clone_expressions(arguments),
            };
            proof {
                lemma_call_view(r);
                lemma_call_view(*expression);
            }
            r
        },
    }
}

/// A copy of `expressions`.
pub fn clone_expressions(expressions: &Vec<Expression>) -> (r: Vec<Expression>)
    ensures
        exprs_view(r@) == exprs_view(expressions@),
    decreases expressions,
{
    let mut copy: Vec<Expression> = Vec::new();
    let mut i: usize = 0;
    while i < expressions.len()
        invariant
            i <= expressions.len(),
            copy.len() == i,
            forall|k: int| 0 <= k < i ==> copy@[k]@ == expressions@[k]@,
        decreases expressions.len() - i,
    {
        copy.push(clone_expression(&expressions[i]));
        i = i + 1;
    }
    assert(exprs_view(copy@) =~= exprs_view(expressions@));
    copy
}

/// A copy of `statement`.
pub fn clone_statement(statement: &Statement) -> (r: Statement)
    ensures
        r@ == statement@,
    decreases statement,
{
    match statement {
        Statement::Let(stmt) => Statement::Let(
            LetStatement {
                ident: stmt.ident.clone(),
                expression: match &stmt.expression {
                    Some(e) => Some(clone_expression(e)),
                    None => None,
                },
            },
        ),
        Statement::If(stmt) => Statement::If(
            IfStatement {
                condition: clone_expression(&stmt.condition),
                consequence: Box::new(clone_statement(&stmt.consequence)),
                alternative: match &stmt.alternative {
                    Some(a) => Some(Box::new(clone_statement(a))),
                    None => None,
                },
            },
        ),
        Statement::While(stmt) => Statement::While(
            WhileStatement {
                condition: clone_expression(&stmt.condition),
                body: Box::new(clone_statement(&stmt.body)),
            },
        ),
        Statement::Block(block) => {
            let r = Statement::Block(BlockStatement(clone_statements(&block.0)));
            proof {
                lemma_block_view(r);
                lemma_block_view(*statement);
            }
            r
        },
        Statement::Expression(e) => Statement::Expression(clone_expression(e)),
        Statement::Print(e) => Statement::Print(clone_expression(e)),
        Statement::Function(stmt) => {
            let r = Statement::Function(
                FunctionStatement {
                    ident: stmt.ident.clone(),
                    parameters: clone_names(&stmt.parameters),
                    body: BlockStatement(clone_statements(&stmt.body.0)),
                },
            );
            proof {
                lemma_function_statement_view(r);
                lemma_function_statement_view(*statement);
            }
            r
        },
        Statement::Return(e) => Statement::Return(clone_expression(e)),
    }
}

/// A copy of `statements`.
pub fn clone_statements(statements: &Vec<Statement>) -> (r: Vec<Statement>)
    ensures
        stmts_view(r@) == stmts_view(statements@),
    decreases statements,
{
    let mut copy: Vec<Statement> = Vec::new();
    let mut i: usize = 0;
    while i < statements.len()
        invariant
            i <= statements.len(),
            copy.len() == i,
            forall|k: int| 0 <= k < i ==> copy@[k]@ == statements@[k]@,
        decreases statements.len() - i,
    {
        copy.push(clone_statement(&statements[i]));
        i = i + 1;
    }
    assert(stmts_view(copy@) =~= stmts_view(statements@));
    copy
}

impl Clone for ParserValue {
    fn clone(&self) -> (r: Self)
        ensures
            r@ == self@,
    {
        clone_literal(self)
    }
}

impl Clone for Expression {
    fn clone(&self) -> (r: Self)
        ensures
            r@ == self@,
    {
        clone_expression(self)
    }
}

impl Clone for Statement {
    fn clone(&self) -> (r: Self)
        ensures
            r@ == self@,
    {
        clone_statement(self)
    }
}

impl Clone for BlockStatement {
    fn clone(&self) -> (r: Self)
        ensures
            r@ == self@,
    {
        BlockStatement(clone_statements(&self.0))
    }
}

/// The text that renders a literal: a string or a number is its own text, a
/// boolean `true` or `false`, `null` is `null`, and a function is
/// `<function NAME>`, or `<anonymous function>` where it has no name.
pub open spec fn literal_text(literal: SpecLiteral) -> Seq<char> {
    match literal {
        SpecLiteral::String(text) => text,
        SpecLiteral::Number(text) => text,
        SpecLiteral::Bool(b) => if b {
            "true"@
        } else {
            "false"@
        },
        SpecLiteral::Null => "null"@,
        SpecLiteral::Function { ident, .. } => match ident {
            Some(name) => "<function "@ + name + ">"@,
            None => "<anonymous function>"@,
        },
    }
}

impl ParserValue {
    /// The text that renders the literal.
    pub fn to_text(&self) -> (r: String)
        ensures
            r@ == literal_text(self@),
    {
        match self {
            ParserValue::String(text) => text.clone(),
            ParserValue::Number(text) => text.clone(),
            ParserValue::Bool(b) => if *b {
                "true".to_owned()
            } else {
                "false".to_owned()
            },
            ParserValue::Null => "null".to_owned(),
            ParserValue::Function { ident, .. } => match ident {
                Some(name) => "<function ".to_owned().concat(name.0.as_str()).concat(">"),
                None => "<anonymous function>".to_owned(),
            },
        }
    }

    /// The number literal with the text `number`.
    pub fn number(number: &str) -> (r: ParserValue)
        ensures
            r@ == SpecLiteral::Number(number@),
    {
        ParserValue::Number(number.to_owned())
    }

    /// The string literal with the text `string`.
    pub fn string(string: &str) -> (r: ParserValue)
        ensures
            r@ == SpecLiteral::String(string@),
    {
        ParserValue::String(string.to_owned())
    }

    /// The literal `true` or `false`.
    pub fn bool(boolean: bool) -> (r: ParserValue)
        ensures
            r@ == SpecLiteral::Bool(boolean),
    {
        ParserValue::Bool(boolean)
    }

    /// The literal `null`.
    pub fn null() -> (r: ParserValue)
        ensures
            r@ == SpecLiteral::Null,
    {
        ParserValue::Null
    }

    /// The function literal with the given name, parameters and body.
    pub fn function(ident: Option<Ident>, params: Vec<Ident>, body: BlockStatement) -> (r:
        ParserValue)
        ensures
            r@ == (SpecLiteral::Function {
                ident: match ident {
                    Some(name) => Some(name@),
                    None => None,
                },
                params: names_view(params@),
                body: body@,
            }),
    {
        let r = ParserValue::Function { ident, params, body };
        proof {
            lemma_function_literal_view(r);
        }
        r
    }
}

impl Expression {
    /// The parenthesized `expression`.
    pub fn grouping(expression: Expression) -> (r: Expression)
        ensures
            r@ == SpecExpr::Grouping(Box::new(expression@)),
    {
        Expression::Grouping(Box::new(expression))
    }

    /// The constant `value`.
    pub fn literal(value: ParserValue) -> (r: Expression)
        ensures
            r@ == SpecExpr::Literal(value@),
    {
        Expression::Literal(value)
    }

    /// The call of `callee` with `arguments`.
    pub fn call(callee: Expression, arguments: Vec<Expression>) -> (r: Expression)
        ensures
            r@ == (SpecExpr::Call {
                callee: Box::new(callee@),
                arguments: exprs_view(arguments@),
            }),
    {
        let r = Expression::Call { callee: Box::new(callee), arguments };
        proof {
            lemma_call_view(r);
        }
        r
    }

    /// `operator` applied to `right`.
    pub fn unary(operator: Operator, right: Expression) -> (r: Expression)
        ensures
            r@ == (SpecExpr::Unary { operator, right: Box::new(right@) }),
    {
        Expression::Unary { operator, right: Box::new(right) }
    }

    /// `operator` applied to `left` and `right`.
    pub fn binary(left: Expression, operator: Operator, right: Expression) -> (r: Expression)
        ensures
            r@ == (SpecExpr::Binary {
                left: Box::new(left@),
                operator,
                right: Box::new(right@),
            }),
    {
        Expression::Binary { left: Box::new(left), operator, right: Box::new(right) }
    }

    /// The assignment of `value` to the variable `ident`.
    pub fn assignement(ident: Ident, value: Expression) -> (r: Expression)
        ensures
            r@ == (SpecExpr::Assignement { ident: ident@, value: Box::new(value@) }),
    {
        Expression::Assignement { ident, value: Box::new(value) }
    }

    /// The variable named `ident`.
    pub fn variable(ident: &str) -> (r: Expression)
        ensures
            r@ == SpecExpr::Variable(ident@),
    {
        Expression::Variable(Ident::new(ident))
    }
}

impl BlockStatement {
    /// The block of `statements`.
    pub fn new(statements: Vec<Statement>) -> (r: BlockStatement)
        ensures
            r.0 == statements,
            r@ == stmts_view(statements@),
    {
        BlockStatement(statements)
    }

    /// The statements of the block, in order.
    pub fn statements(&self) -> (r: &Vec<Statement>)
        ensures
            *r == self.0,
    {
        &self.0
    }
}

impl Statement {
    /// `let ident = expression`, or `let ident` without an initializer.
    pub fn _let(ident: Ident, expression: Option<Expression>) -> (r: Statement)
        ensures
            r@ == (SpecStmt::Let {
                ident: ident@,
                expression: match expression {
                    Some(e) => Some(e@),
                    None => None,
                },
            }),
    {
        Statement::Let(LetStatement { ident, expression })
    }

    /// `print expression`.
    pub fn print(expression: Expression) -> (r: Statement)
        ensures
            r@ == SpecStmt::Print(expression@),
    {
        Statement::Print(expression)
    }

    /// The declaration of the function `ident`.
    pub fn function(ident: Ident, parameters: Vec<Ident>, body: BlockStatement) -> (r: Statement)
        ensures
            r@ == (SpecStmt::Function {
                ident: ident@,
                parameters: names_view(parameters@),
                body: body@,
            }),
    {
        let r = Statement::Function(FunctionStatement { ident, parameters, body });
        proof {
            lemma_function_statement_view(r);
        }
        r
    }

    /// `return expression`.
    pub fn _return(expression: Expression) -> (r: Statement)
        ensures
            r@ == SpecStmt::Return(expression@),
    {
        Statement::Return(expression)
    }

    /// `if (condition) consequence`, with `else alternative` where there is
    /// one. Neither branch may be a bare `let`: it has to stand in a block.
    pub fn _if(condition: Expression, consequence: Statement, alternative: Option<Statement>) -> (r:
        Statement)
        requires
            !(consequence is Let),
            !(alternative matches Some(a) && a is Let),
        ensures
            r@ == (SpecStmt::If {
                condition: condition@,
                consequence: Box::new(consequence@),
                alternative: match alternative {
                    Some(a) => Some(Box::new(a@)),
                    None => None,
                },
            }),
    {
        Statement::If(
            IfStatement {
                condition,
                consequence: Box::new(consequence),
                alternative: match alternative {
                    Some(a) => Some(Box::new(a)),
                    None => None,
                },
            },
        )
    }

    /// `while (condition) body`.
    pub fn _while(condition: Expression, body: Statement) -> (r: Statement)
        ensures
            r@ == (SpecStmt::While { condition: condition@, body: Box::new(body@) }),
    {
        Statement::While(WhileStatement { condition, body: Box::new(body) })
    }

    /// The block of `statements`.
    pub fn _block(statements: Vec<Statement>) -> (r: Statement)
        ensures
            r@ == SpecStmt::Block(stmts_view(statements@)),
    {
        let r = Statement::Block(BlockStatement::new(statements));
        proof {
            lemma_block_view(r);
        }
        r
    }

    /// The statement that evaluates `expression`.
    pub fn _expression(expression: Expression) -> (r: Statement)
        ensures
            r@ == SpecStmt::Expression(expression@),
    {
        Statement::Expression(expression)
    }
}

} // verus!
