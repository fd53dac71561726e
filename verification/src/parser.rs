//! The parser: recursive descent over the tokens of a source text.

use vstd::prelude::*;
use crate::ast::{
    exprs_view, stmts_view, BlockStatement, Expression, ParserValue, SpecExpr, SpecStmt, Statement,
};
use crate::grammar;
use crate::grammar::{
    after, lemma_token_progress, level_has, looseness, operator_of, peek, remaining, skip_if,
    upcoming_is, Level, ParsedExpr, ParsedStmt, ParsedStmts, SpecParseError, MAX_ARITY,
};
use crate::ident::{names_view, Ident};
use crate::lexer::{LexError, Lexer};
use crate::operator::Operator;
use crate::token::{SpecToken, Token};

verus! {

/// Why a source text is no program.
#[derive(Debug, PartialEq)]
pub enum ParseError {
    /// The scanner found no token.
    Lex(LexError),
    /// The token `expected` had to come, and `found` came.
    UnexpectedToken { expected: Token, found: Token },
    /// A name had to come, and `found` came.
    ExpectedIdentifier { found: Token },
    /// An expression had to start, and `found` starts none.
    ExpectedExpression { found: Token },
    /// The left side of `=` is no variable.
    InvalidAssignmentTarget,
    /// A function declares more than 255 parameters.
    TooManyParameters,
    /// A call passes more than 255 arguments.
    TooManyArguments,
}

impl View for ParseError {
    type V = SpecParseError;

    open spec fn view(&self) -> SpecParseError {
        match self {
            ParseError::Lex(error) => SpecParseError::Lex(*error),
            ParseError::UnexpectedToken { expected, found } => SpecParseError::UnexpectedToken {
                expected: expected@,
                found: found@,
            },
            ParseError::ExpectedIdentifier { found } => SpecParseError::ExpectedIdentifier {
                found: found@,
            },
            ParseError::ExpectedExpression { found } => SpecParseError::ExpectedExpression {
                found: found@,
            },
            ParseError::InvalidAssignmentTarget => SpecParseError::InvalidAssignmentTarget,
            ParseError::TooManyParameters => SpecParseError::TooManyParameters,
            ParseError::TooManyArguments => SpecParseError::TooManyArguments,
        }
    }
}

/// A parsed expression with the position `end` after it, by its view.
pub open spec fn expr_outcome(r: Result<Expression, ParseError>, end: int) -> ParsedExpr {
    match r {
        Ok(expression) => Ok((expression@, end)),
        Err(error) => Err(error@),
    }
}

/// A parsed statement with the position `end` after it, by its view.
pub open spec fn stmt_outcome(r: Result<Statement, ParseError>, end: int) -> ParsedStmt {
    match r {
        Ok(statement) => Ok((statement@, end)),
        Err(error) => Err(error@),
    }
}

/// Parsed statements with the position `end` after them, by their views.
pub open spec fn stmts_outcome(r: Result<Vec<Statement>, ParseError>, end: int) -> ParsedStmts {
    match r {
        Ok(statements) => Ok((stmts_view(statements@), end)),
        Err(error) => Err(error@),
    }
}

/// The statements of a parsed program by their views, or the error by its
/// view.
pub open spec fn parse_outcome(r: Result<Vec<Statement>, ParseError>) -> Result<
    Seq<SpecStmt>,
    SpecParseError,
> {
    match r {
        Ok(statements) => Ok(stmts_view(statements@)),
        Err(error) => Err(error@),
    }
}

/// The views of a sequence of statements with one more statement are the
/// views of the sequence with the view of that statement.
pub proof fn lemma_stmts_view_push(statements: Seq<Statement>, statement: Statement)
    ensures
        stmts_view(statements.push(statement)) == stmts_view(statements).push(statement@),
{
    assert(stmts_view(statements.push(statement)) =~= stmts_view(statements).push(statement@));
}

/// The views of a sequence of expressions with one more expression are the
/// views of the sequence with the view of that expression.
pub proof fn lemma_exprs_view_push(expressions: Seq<Expression>, expression: Expression)
    ensures
        exprs_view(expressions.push(expression)) == exprs_view(expressions).push(expression@),
{
    assert(exprs_view(expressions.push(expression)) =~= exprs_view(expressions).push(
        expression@,
    ));
}

/// The texts of a sequence of names with one more name are the texts of the
/// sequence with the text of that name.
pub proof fn lemma_names_view_push(names: Seq<Ident>, name: Ident)
    ensures
        names_view(names.push(name)) == names_view(names).push(name@),
{
    assert(names_view(names.push(name)) =~= names_view(names).push(name@));
}

/// A parser over one source text.
pub struct Parser {
    lexer: Lexer,
}

impl Parser {
    /// The bytes of the source text.
    pub closed spec fn text(&self) -> Seq<u8> {
        self.lexer.bytes()
    }

    /// Where the parser stands: the index of the first byte not yet consumed.
    pub closed spec fn pos(&self) -> int {
        self.lexer.pos()
    }

    /// Whether the parser stands inside its text or at its end.
    pub open spec fn in_bounds(&self) -> bool {
        0 <= self.pos() <= self.text().len()
    }

    /// A parser at the start of `input`.
    pub fn new(input: &str) -> (r: Parser)
        ensures
            r.text() == vstd::utf8::encode_utf8(input@),
            vstd::utf8::valid_utf8(r.text()),
            r.pos() == 0,
    {
        Parser { lexer: Lexer::new(input.to_owned()) }
    }

    /// The upcoming token, which is not consumed.
    fn peek(&mut self) -> (r: Result<Token, ParseError>)
        ensures
            final(self).text() == old(self).text(),
            final(self).pos() == old(self).pos(),
            final(self).in_bounds(),
            match r {
                Ok(token) => peek(old(self).text(), old(self).pos()) == Ok::<SpecToken, LexError>(
                    token@,
                ),
                Err(error) => peek(old(self).text(), old(self).pos()) is Err && error@
                    == SpecParseError::Lex(peek(old(self).text(), old(self).pos())->Err_0),
            },
    {
        match self.lexer.peek_token() {
            Ok(token) => Ok(token),
            Err(error) => Err(ParseError::Lex(error)),
        }
    }

    /// Consumes the upcoming token.
    fn advance(&mut self) -> (r: Result<Token, ParseError>)
        ensures
            final(self).text() == old(self).text(),
            final(self).in_bounds(),
            old(self).pos() <= final(self).pos(),
            match r {
                Ok(token) => peek(old(self).text(), old(self).pos()) == Ok::<SpecToken, LexError>(
                    token@,
                ) && final(self).pos() == after(old(self).text(), old(self).pos()) && (token@
                    != SpecToken::Eof ==> old(self).pos() < final(self).pos()),
                Err(error) => peek(old(self).text(), old(self).pos()) is Err && error@
                    == SpecParseError::Lex(peek(old(self).text(), old(self).pos())->Err_0),
            },
    {
        proof {
            lemma_token_progress(self.text(), self.pos());
        }
        match self.lexer.next_token() {
            Ok(token) => Ok(token),
            Err(error) => Err(ParseError::Lex(error)),
        }
    }

    /// Consumes the upcoming token where it is `token`, and says whether it
    /// was.
    fn accept(&mut self, token: Token) -> (r: bool)
        ensures
            final(self).text() == old(self).text(),
            final(self).in_bounds(),
            r == upcoming_is(old(self).text(), old(self).pos(), token@),
            final(self).pos() == skip_if(old(self).text(), old(self).pos(), token@),
            old(self).pos() <= final(self).pos(),
            (r && token@ != SpecToken::Eof) ==> old(self).pos() < final(self).pos(),
    {
        proof {
            lemma_token_progress(self.text(), self.pos());
        }
        self.lexer.match_token_and_consume(token)
    }

    /// Consumes the upcoming token where it is `token`; fails with what came
    /// instead where it is not.
    fn expect(&mut self, token: Token) -> (r: Result<(), ParseError>)
        ensures
            final(self).text() == old(self).text(),
            final(self).in_bounds(),
            old(self).pos() <= final(self).pos(),
            match r {
                Ok(_) => grammar::expect_at(old(self).text(), old(self).pos(), token@) == Ok::<
                    int,
                    SpecParseError,
                >(final(self).pos()),
                Err(error) => grammar::expect_at(old(self).text(), old(self).pos(), token@) == Err::<
                    int,
                    SpecParseError,
                >(error@),
            },
            (r is Ok && token@ != SpecToken::Eof) ==> old(self).pos() < final(self).pos(),
    {
        let ghost text = self.text();
        let ghost pos = self.pos();
        let upcoming = self.peek()?;
        proof {
            lemma_token_progress(text, pos);
        }
        if upcoming.same(&token) {
            let _ = self.lexer.next_token();
            Ok(())
        } else {
            Err(ParseError::UnexpectedToken { expected: token, found: upcoming })
        }
    }

    /// Consumes the upcoming token, which has to be a name.
    fn parse_ident(&mut self) -> (r: Result<Ident, ParseError>)
        ensures
            final(self).text() == old(self).text(),
            final(self).in_bounds(),
            old(self).pos() <= final(self).pos(),
            match r {
                Ok(ident) => grammar::identifier(old(self).text(), old(self).pos()) == Ok::<
                    (Seq<char>, int),
                    SpecParseError,
                >((ident@, final(self).pos())) && old(self).pos() < final(self).pos(),
                Err(error) => grammar::identifier(old(self).text(), old(self).pos()) == Err::<
                    (Seq<char>, int),
                    SpecParseError,
                >(error@),
            },
    {
        let upcoming = self.peek()?;
        match upcoming {
            Token::Ident(name) => {
                let _ = self.advance();
                Ok(Ident(name))
            },
            other => Err(ParseError::ExpectedIdentifier { found: other }),
        }
    }

    /// The operator that `token` denotes.
    fn parse_token_to_operator(token: &Token) -> (r: Operator)
        requires
            operator_of(token@) is Some,
        ensures
            Some(r) == operator_of(token@),
    {
        match token {
            Token::Plus => Operator::Plus,
            Token::Minus => Operator::Minus,
            Token::Asterisk => Operator::Asterisk,
            Token::ForwardSlash => Operator::Slash,
            Token::Bang => Operator::Bang,
            Token::Equal => Operator::Equal,
            Token::NotEqual => Operator::NotEqual,
            Token::And => Operator::And,
            Token::Or => Operator::Or,
            Token::LessThan => Operator::LessThan,
            Token::LessThanOrEqual => Operator::LessThanOrEqual,
            Token::GreaterThan => Operator::GreaterThan,
            _ => Operator::GreaterThanOrEqual,
        }
    }

    /// Whether `token` denotes an operator.
    fn is_operator(token: &Token) -> (r: bool)
        ensures
            r == operator_of(token@) is Some,
    {
        match token {
            Token::Plus
            | Token::Minus
            | Token::Asterisk
            | Token::ForwardSlash
            | Token::Bang
            | Token::Equal
            | Token::NotEqual
            | Token::And
            | Token::Or
            | Token::LessThan
            | Token::LessThanOrEqual
            | Token::GreaterThan
            | Token::GreaterThanOrEqual => true,
            _ => false,
        }
    }

    /// Whether `operator` is a binary operator of `level`.
    fn level_holds(level: Level, operator: Operator) -> (r: bool)
        ensures
            r == level_has(level, operator),
    {
        match level {
            Level::Or => operator == Operator::Or,
            Level::And => operator == Operator::And,
            Level::Equality => operator == Operator::Equal || operator == Operator::NotEqual,
            Level::Comparison => operator == Operator::GreaterThan || operator
                == Operator::GreaterThanOrEqual || operator == Operator::LessThan || operator
                == Operator::LessThanOrEqual,
            Level::Term => operator == Operator::Plus || operator == Operator::Minus,
            Level::Factor => operator == Operator::Asterisk || operator == Operator::Slash,
        }
    }

    /// The binary operator of `level` that the upcoming token denotes, if it
    /// denotes one. The token is not consumed.
    fn operator_ahead(&mut self, level: Level) -> (r: Option<Operator>)
        ensures
            final(self).text() == old(self).text(),
            final(self).pos() == old(self).pos(),
            final(self).in_bounds(),
            r == grammar::operator_at(old(self).text(), old(self).pos(), level),
    {
        match self.peek() {
            Ok(token) => {
                if Self::is_operator(&token) {
                    let operator = Self::parse_token_to_operator(&token);
                    if Self::level_holds(level, operator) {
                        Some(operator)
                    } else {
                        None
                    }
                } else {
                    None
                }
            },
            Err(_) => None,
        }
    }

    /// The expression that the single token `token` is, or the token back
    /// where it is none.
    fn atom(token: Token) -> (r: Result<Expression, Token>)
        ensures
            match r {
                Ok(expression) => grammar::atom(token@) == Some(expression@),
                Err(found) => grammar::atom(token@) is None && found@ == token@,
            },
    {
        match token {
            Token::Ident(name) => Ok(Expression::Variable(Ident(name))),
            Token::Number(text) => Ok(Expression::literal(ParserValue::Number(text))),
            Token::String(text) => Ok(Expression::literal(ParserValue::String(text))),
            Token::True => Ok(Expression::literal(ParserValue::Bool(true))),
            Token::False => Ok(Expression::literal(ParserValue::Bool(false))),
            Token::Null => Ok(Expression::literal(ParserValue::Null)),
            other => Err(other),
        }
    }

    /// `primary -> NUMBER | STRING | "true" | "false" | "null" | IDENT | "(" expression ")"`
    fn primary(&mut self) -> (r: Result<Expression, ParseError>)
        ensures
            final(self).text() == old(self).text(),
            final(self).in_bounds(),
            expr_outcome(r, final(self).pos()) == grammar::primary(
                old(self).text(),
                old(self).pos(),
            ),
            r is Ok ==> old(self).pos() < final(self).pos(),
        decreases remaining(old(self).text(), old(self).pos()), 5int,
    {
        let token = self.advance()?;
        if token.same(&Token::Lparen) {
            let inner = self.expression()?;
            self.expect(Token::Rparen)?;
            Ok(Expression::grouping(inner))
        } else {
            match Self::atom(token) {
                Ok(expression) => Ok(expression),
                Err(found) => Err(ParseError::ExpectedExpression { found }),
            }
        }
    }

    /// The arguments of a call up to the closing parenthesis, which is not
    /// consumed: `(expression ("," expression)*)?`, 255 of them at most.
    fn arguments(&mut self) -> (r: Result<Vec<Expression>, ParseError>)
        ensures
            final(self).text() == old(self).text(),
            final(self).in_bounds(),
            match r {
                Ok(arguments) => grammar::arguments(old(self).text(), old(self).pos()) == Ok::<
                    (Seq<SpecExpr>, int),
                    SpecParseError,
                >((exprs_view(arguments@), final(self).pos())),
                Err(error) => grammar::arguments(old(self).text(), old(self).pos()) == Err::<
                    (Seq<SpecExpr>, int),
                    SpecParseError,
                >(error@),
            },
            r is Ok ==> old(self).pos() <= final(self).pos(),
        decreases remaining(old(self).text(), old(self).pos()), 35int,
    {
        let mut arguments: Vec<Expression> = Vec::new();
        assert(exprs_view(arguments@) =~= Seq::<SpecExpr>::empty());
        match self.peek() {
            Ok(Token::Rparen) => {
                return Ok(arguments);
            },
            _ => {},
        }
        loop
            invariant
                self.text() == old(self).text(),
                self.in_bounds(),
                old(self).pos() <= self.pos(),
                grammar::arguments_from(self.text(), self.pos(), exprs_view(arguments@))
                    == grammar::arguments(old(self).text(), old(self).pos()),
            decreases remaining(self.text(), self.pos()),
        {
            if arguments.len() >= MAX_ARITY {
                return Err(ParseError::TooManyArguments);
            }
            let ghost seen = arguments@;
            let argument = self.expression()?;
            proof {
                lemma_exprs_view_push(seen, argument);
            }
            arguments.push(argument);
            if !self.accept(Token::Comma) {
                return Ok(arguments);
            }
        }
    }

    /// The call of `callee` with the arguments that follow the opening
    /// parenthesis, which has been consumed.
    fn finish_call(&mut self, callee: Expression) -> (r: Result<Expression, ParseError>)
        ensures
            final(self).text() == old(self).text(),
            final(self).in_bounds(),
            r is Ok ==> old(self).pos() <= final(self).pos(),
            match r {
                Ok(call) => grammar::arguments(old(self).text(), old(self).pos()) matches Ok(
                    (arguments, p2),
                ) && grammar::expect_at(old(self).text(), p2, SpecToken::Rparen) == Ok::<
                    int,
                    SpecParseError,
                >(final(self).pos()) && call@ == (SpecExpr::Call {
                    callee: Box::new(callee@),
                    arguments,
                }),
                Err(error) => match grammar::arguments(old(self).text(), old(self).pos()) {
                    Ok((arguments, p2)) => grammar::expect_at(
                        old(self).text(),
                        p2,
                        SpecToken::Rparen,
                    ) == Err::<int, SpecParseError>(error@),
                    Err(e) => e == error@,
                },
            },
        decreases remaining(old(self).text(), old(self).pos()), 36int,
    {
        let arguments = self.arguments()?;
        self.expect(Token::Rparen)?;
        Ok(Expression::call(callee, arguments))
    }

    /// `call -> primary ("(" arguments? ")")*`
    fn call(&mut self) -> (r: Result<Expression, ParseError>)
        ensures
            final(self).text() == old(self).text(),
            final(self).in_bounds(),
            expr_outcome(r, final(self).pos()) == grammar::call(old(self).text(), old(self).pos()),
            r is Ok ==> old(self).pos() < final(self).pos(),
        decreases remaining(old(self).text(), old(self).pos()), 7int,
    {
        let mut expr = self.primary()?;
        loop
            invariant
                self.text() == old(self).text(),
                self.in_bounds(),
                old(self).pos() < self.pos(),
                grammar::call_rest(self.text(), self.pos(), expr@) == grammar::call(
                    old(self).text(),
                    old(self).pos(),
                ),
            decreases remaining(self.text(), self.pos()),
        {
            if self.accept(Token::Lparen) {
                expr = self.finish_call(expr)?;
            } else {
                return Ok(expr);
            }
        }
    }

    /// `unary -> ("!" | "-") unary | call`
    fn unary(&mut self) -> (r: Result<Expression, ParseError>)
        ensures
            final(self).text() == old(self).text(),
            final(self).in_bounds(),
            expr_outcome(r, final(self).pos()) == grammar::unary(old(self).text(), old(self).pos()),
            r is Ok ==> old(self).pos() < final(self).pos(),
        decreases remaining(old(self).text(), old(self).pos()), 8int,
    {
        match self.peek() {
            Ok(Token::Bang) => {
                let _ = self.advance();
                let right = self.unary()?;
                Ok(Expression::unary(Operator::Bang, right))
            },
            Ok(Token::Minus) => {
                let _ = self.advance();
                let right = self.unary()?;
                Ok(Expression::unary(Operator::Minus, right))
            },
            _ => self.call(),
        }
    }

    /// An operand of `level`: an expression of the next tighter level.
    fn operand(&mut self, level: Level) -> (r: Result<Expression, ParseError>)
        ensures
            final(self).text() == old(self).text(),
            final(self).in_bounds(),
            expr_outcome(r, final(self).pos()) == grammar::operand(
                old(self).text(),
                old(self).pos(),
                level,
            ),
            r is Ok ==> old(self).pos() < final(self).pos(),
        decreases remaining(old(self).text(), old(self).pos()), 10 + 3 * looseness(level),
    {
        match level {
            Level::Or => self.and(),
            Level::And => self.equality(),
            Level::Equality => self.comparison(),
            Level::Comparison => self.term(),
            Level::Term => self.factor(),
            Level::Factor => self.unary(),
        }
    }

    /// An expression of `level`: operands of that level with its operators
    /// between them, grouped from the left.
    fn binary(&mut self, level: Level) -> (r: Result<Expression, ParseError>)
        ensures
            final(self).text() == old(self).text(),
            final(self).in_bounds(),
            expr_outcome(r, final(self).pos()) == grammar::binary(
                old(self).text(),
                old(self).pos(),
                level,
            ),
            r is Ok ==> old(self).pos() < final(self).pos(),
        decreases remaining(old(self).text(), old(self).pos()), 11 + 3 * looseness(level),
    {
        let mut expr = self.operand(level)?;
        loop
            invariant
                self.text() == old(self).text(),
                self.in_bounds(),
                old(self).pos() < self.pos(),
                grammar::binary_rest(self.text(), self.pos(), level, expr@) == grammar::binary(
                    old(self).text(),
                    old(self).pos(),
                    level,
                ),
            decreases remaining(self.text(), self.pos()),
        {
            match self.operator_ahead(level) {
                Some(operator) => {
                    let _ = self.advance();
                    let right = self.operand(level)?;
                    expr = Expression::binary(expr, operator, right);
                },
                None => {
                    return Ok(expr);
                },
            }
        }
    }

    /// `factor -> unary (("*" | "/") unary)*`
    fn factor(&mut self) -> (r: Result<Expression, ParseError>)
        ensures
            final(self).text() == old(self).text(),
            final(self).in_bounds(),
            expr_outcome(r, final(self).pos()) == grammar::binary(
                old(self).text(),
                old(self).pos(),
                Level::Factor,
            ),
            r is Ok ==> old(self).pos() < final(self).pos(),
        decreases remaining(old(self).text(), old(self).pos()), 12int,
    {
        self.binary(Level::Factor)
    }

    /// `term -> factor (("+" | "-") factor)*`
    fn term(&mut self) -> (r: Result<Expression, ParseError>)
        ensures
            final(self).text() == old(self).text(),
            final(self).in_bounds(),
            expr_outcome(r, final(self).pos()) == grammar::binary(
                old(self).text(),
                old(self).pos(),
                Level::Term,
            ),
            r is Ok ==> old(self).pos() < final(self).pos(),
        decreases remaining(old(self).text(), old(self).pos()), 15int,
    {
        self.binary(Level::Term)
    }

    /// `comparison -> term ((">" | ">=" | "<" | "<=") term)*`
    fn comparison(&mut self) -> (r: Result<Expression, ParseError>)
        ensures
            final(self).text() == old(self).text(),
            final(self).in_bounds(),
            expr_outcome(r, final(self).pos()) == grammar::binary(
                old(self).text(),
                old(self).pos(),
                Level::Comparison,
            ),
            r is Ok ==> old(self).pos() < final(self).pos(),
        decreases remaining(old(self).text(), old(self).pos()), 18int,
    {
        self.binary(Level::Comparison)
    }

    /// `equality -> comparison (("==" | "!=") comparison)*`
    fn equality(&mut self) -> (r: Result<Expression, ParseError>)
        ensures
            final(self).text() == old(self).text(),
            final(self).in_bounds(),
            expr_outcome(r, final(self).pos()) == grammar::binary(
                old(self).text(),
                old(self).pos(),
                Level::Equality,
            ),
            r is Ok ==> old(self).pos() < final(self).pos(),
        decreases remaining(old(self).text(), old(self).pos()), 21int,
    {
        self.binary(Level::Equality)
    }

    /// `logic_and -> equality ("&&" equality)*`
    fn and(&mut self) -> (r: Result<Expression, ParseError>)
        ensures
            final(self).text() == old(self).text(),
            final(self).in_bounds(),
            expr_outcome(r, final(self).pos()) == grammar::binary(
                old(self).text(),
                old(self).pos(),
                Level::And,
            ),
            r is Ok ==> old(self).pos() < final(self).pos(),
        decreases remaining(old(self).text(), old(self).pos()), 24int,
    {
        self.binary(Level::And)
    }

    /// `logic_or -> logic_and ("||" logic_and)*`
    fn or(&mut self) -> (r: Result<Expression, ParseError>)
        ensures
            final(self).text() == old(self).text(),
            final(self).in_bounds(),
            expr_outcome(r, final(self).pos()) == grammar::binary(
                old(self).text(),
                old(self).pos(),
                Level::Or,
            ),
            r is Ok ==> old(self).pos() < final(self).pos(),
        decreases remaining(old(self).text(), old(self).pos()), 27int,
    {
        self.binary(Level::Or)
    }

    /// `assignment -> logic_or ("=" assignment)?`, where the left side of `=`
    /// has to be a variable.
    fn assignment(&mut self) -> (r: Result<Expression, ParseError>)
        ensures
            final(self).text() == old(self).text(),
            final(self).in_bounds(),
            expr_outcome(r, final(self).pos()) == grammar::assignment(
                old(self).text(),
                old(self).pos(),
            ),
            r is Ok ==> old(self).pos() < final(self).pos(),
        decreases remaining(old(self).text(), old(self).pos()), 30int,
    {
        let expr = self.or()?;
        if self.accept(Token::Assign) {
            let value = self.assignment()?;
            match expr {
                Expression::Variable(ident) => Ok(Expression::assignement(ident, value)),
                _ => Err(ParseError::InvalidAssignmentTarget),
            }
        } else {
            Ok(expr)
        }
    }

    /// `expression -> "function" function | assignment`
    pub fn expression(&mut self) -> (r: Result<Expression, ParseError>)
        ensures
            final(self).text() == old(self).text(),
            final(self).in_bounds(),
            expr_outcome(r, final(self).pos()) == grammar::expression(
                old(self).text(),
                old(self).pos(),
            ),
            r is Ok ==> old(self).pos() < final(self).pos(),
        decreases remaining(old(self).text(), old(self).pos()), 31int,
    {
        if self.accept(Token::Function) {
            match self.function() {
                Ok((params, body)) => Ok(
                    Expression::literal(ParserValue::function(None, params, body)),
                ),
                Err(error) => Err(error),
            }
        } else {
            self.assignment()
        }
    }

    /// The parameter names up to the closing parenthesis, which is not
    /// consumed: `(IDENT ("," IDENT)*)?`, 255 of them at most.
    fn parameters(&mut self) -> (r: Result<Vec<Ident>, ParseError>)
        ensures
            final(self).text() == old(self).text(),
            final(self).in_bounds(),
            old(self).pos() <= final(self).pos(),
            match r {
                Ok(params) => grammar::parameters(old(self).text(), old(self).pos()) == Ok::<
                    (Seq<Seq<char>>, int),
                    SpecParseError,
                >((names_view(params@), final(self).pos())),
                Err(error) => grammar::parameters(old(self).text(), old(self).pos()) == Err::<
                    (Seq<Seq<char>>, int),
                    SpecParseError,
                >(error@),
            },
    {
        let mut params: Vec<Ident> = Vec::new();
        assert(names_view(params@) =~= Seq::<Seq<char>>::empty());
        match self.peek() {
            Ok(Token::Rparen) => {
                return Ok(params);
            },
            _ => {},
        }
        loop
            invariant
                self.text() == old(self).text(),
                self.in_bounds(),
                old(self).pos() <= self.pos(),
                grammar::parameters_from(self.text(), self.pos(), names_view(params@))
                    == grammar::parameters(old(self).text(), old(self).pos()),
            decreases remaining(self.text(), self.pos()),
        {
            if params.len() >= MAX_ARITY {
                return Err(ParseError::TooManyParameters);
            }
            let ghost seen = params@;
            let name = self.parse_ident()?;
            proof {
                lemma_names_view_push(seen, name);
            }
            params.push(name);
            if !self.accept(Token::Comma) {
                return Ok(params);
            }
        }
    }

    /// `function -> "(" (IDENT ("," IDENT)*)? ")" block`: the parameters and
    /// the body of a function.
    fn function(&mut self) -> (r: Result<(Vec<Ident>, BlockStatement), ParseError>)
        ensures
            final(self).text() == old(self).text(),
            final(self).in_bounds(),
            match r {
                Ok((params, body)) => grammar::function(old(self).text(), old(self).pos()) == Ok::<
                    ((Seq<Seq<char>>, Seq<SpecStmt>), int),
                    SpecParseError,
                >(((names_view(params@), body@), final(self).pos())),
                Err(error) => grammar::function(old(self).text(), old(self).pos()) == Err::<
                    ((Seq<Seq<char>>, Seq<SpecStmt>), int),
                    SpecParseError,
                >(error@),
            },
            r is Ok ==> old(self).pos() < final(self).pos(),
        decreases remaining(old(self).text(), old(self).pos()), 36int,
    {
        self.expect(Token::Lparen)?;
        let params = self.parameters()?;
        self.expect(Token::Rparen)?;
        self.expect(Token::LSquirly)?;
        let body = self.block_statement()?;
        Ok((params, BlockStatement::new(body)))
    }

    /// `block -> "{" declaration* "}"`, after the opening brace: the
    /// declarations up to and with the closing brace.
    fn block_statement(&mut self) -> (r: Result<Vec<Statement>, ParseError>)
        ensures
            final(self).text() == old(self).text(),
            final(self).in_bounds(),
            stmts_outcome(r, final(self).pos()) == grammar::block_from(
                old(self).text(),
                old(self).pos(),
                Seq::empty(),
            ),
            r is Ok ==> old(self).pos() < final(self).pos(),
        decreases remaining(old(self).text(), old(self).pos()), 42int,
    {
        let mut statements: Vec<Statement> = Vec::new();
        assert(stmts_view(statements@) =~= Seq::<SpecStmt>::empty());
        loop
            invariant
                self.text() == old(self).text(),
                old(self).pos() <= self.pos(),
                grammar::block_from(self.text(), self.pos(), stmts_view(statements@))
                    == grammar::block_from(old(self).text(), old(self).pos(), Seq::empty()),
            decreases remaining(self.text(), self.pos()),
        {
            match self.peek() {
                Ok(Token::RSquirly) => {
                    let _ = self.advance();
                    return Ok(statements);
                },
                Ok(Token::Eof) => {
                    return Err(
                        ParseError::UnexpectedToken {
                            expected: Token::RSquirly,
                            found: Token::Eof,
                        },
                    );
                },
                _ => {},
            }
            let ghost seen = statements@;
            let statement = self.declaration()?;
            proof {
                lemma_stmts_view_push(seen, statement);
            }
            statements.push(statement);
            let _ = self.accept(Token::Semicolon);
        }
    }

    /// `declaration -> "function" IDENT function | "let" IDENT ("=" expression)? ";"? | statement`
    fn declaration(&mut self) -> (r: Result<Statement, ParseError>)
        ensures
            final(self).text() == old(self).text(),
            final(self).in_bounds(),
            stmt_outcome(r, final(self).pos()) == grammar::declaration(
                old(self).text(),
                old(self).pos(),
            ),
            r is Ok ==> old(self).pos() < final(self).pos(),
        decreases remaining(old(self).text(), old(self).pos()), 41int,
    {
        if self.accept(Token::Function) {
            return self.function_decl();
        }
        if self.accept(Token::Let) {
            return self.var_decl();
        }
        self.statement()
    }

    /// What follows `function` in a declaration: `IDENT function`.
    fn function_decl(&mut self) -> (r: Result<Statement, ParseError>)
        ensures
            final(self).text() == old(self).text(),
            final(self).in_bounds(),
            stmt_outcome(r, final(self).pos()) == grammar::function_decl(
                old(self).text(),
                old(self).pos(),
            ),
            r is Ok ==> old(self).pos() < final(self).pos(),
        decreases remaining(old(self).text(), old(self).pos()), 37int,
    {
        let ident = self.parse_ident()?;
        match self.function() {
            Ok((params, body)) => Ok(Statement::function(ident, params, body)),
            Err(error) => Err(error),
        }
    }

    /// What follows `let`: `IDENT ("=" expression)? ";"?`.
    fn var_decl(&mut self) -> (r: Result<Statement, ParseError>)
        ensures
            final(self).text() == old(self).text(),
            final(self).in_bounds(),
            stmt_outcome(r, final(self).pos()) == grammar::var_decl(
                old(self).text(),
                old(self).pos(),
            ),
            r is Ok ==> old(self).pos() < final(self).pos(),
            r matches Ok(statement) ==> statement is Let,
        decreases remaining(old(self).text(), old(self).pos()), 35int,
    {
        let ident = self.parse_ident()?;
        let mut expr: Option<Expression> = None;
        if self.accept(Token::Assign) {
            expr = Some(self.expression()?);
        }
        let _ = self.accept(Token::Semicolon);
        Ok(Statement::_let(ident, expr))
    }

    /// `statement -> block | if | while | for | print | return | expression`
    fn statement(&mut self) -> (r: Result<Statement, ParseError>)
        ensures
            final(self).text() == old(self).text(),
            final(self).in_bounds(),
            stmt_outcome(r, final(self).pos()) == grammar::statement(
                old(self).text(),
                old(self).pos(),
            ),
            r is Ok ==> old(self).pos() < final(self).pos(),
            r matches Ok(statement) ==> !(statement is Let),
        decreases remaining(old(self).text(), old(self).pos()), 40int,
    {
        if self.accept(Token::If) {
            return self.if_statement();
        }
        if self.accept(Token::LSquirly) {
            return match self.block_statement() {
                Ok(statements) => Ok(Statement::_block(statements)),
                Err(error) => Err(error),
            };
        }
        if self.accept(Token::While) {
            return self.while_statement();
        }
        if self.accept(Token::For) {
            return self.for_statement();
        }
        if self.accept(Token::Print) {
            return self.print_statement();
        }
        if self.accept(Token::Return) {
            return self.return_statement();
        }
        self.expression_statement()
    }

    /// The statement that an expression is.
    fn expression_statement(&mut self) -> (r: Result<Statement, ParseError>)
        ensures
            final(self).text() == old(self).text(),
            final(self).in_bounds(),
            match r {
                Ok(statement) => grammar::expression(old(self).text(), old(self).pos())
                    matches Ok((value, end)) && end == final(self).pos() && statement@
                    == SpecStmt::Expression(value),
                Err(error) => grammar::expression(old(self).text(), old(self).pos()) == Err::<
                    (SpecExpr, int),
                    SpecParseError,
                >(error@),
            },
            r is Ok ==> old(self).pos() < final(self).pos(),
            r matches Ok(statement) ==> statement is Expression,
        decreases remaining(old(self).text(), old(self).pos()), 32int,
    {
        let expression = self.expression()?;
        Ok(Statement::_expression(expression))
    }

    /// `expression ")"`: the condition of an `if` or a `while`, after its
    /// opening parenthesis.
    fn condition(&mut self) -> (r: Result<Expression, ParseError>)
        ensures
            final(self).text() == old(self).text(),
            final(self).in_bounds(),
            expr_outcome(r, final(self).pos()) == grammar::condition(
                old(self).text(),
                old(self).pos(),
            ),
            r is Ok ==> old(self).pos() < final(self).pos(),
        decreases remaining(old(self).text(), old(self).pos()), 36int,
    {
        let condition = self.expression()?;
        self.expect(Token::Rparen)?;
        Ok(condition)
    }

    /// What follows `if`: `"(" expression ")" statement ("else" statement)?`.
    fn if_statement(&mut self) -> (r: Result<Statement, ParseError>)
        ensures
            final(self).text() == old(self).text(),
            final(self).in_bounds(),
            stmt_outcome(r, final(self).pos()) == grammar::if_statement(
                old(self).text(),
                old(self).pos(),
            ),
            r is Ok ==> old(self).pos() < final(self).pos(),
            r matches Ok(statement) ==> statement is If,
        decreases remaining(old(self).text(), old(self).pos()), 37int,
    {
        self.expect(Token::Lparen)?;
        let condition = self.condition()?;
        let consequence = self.statement()?;
        let alternative = if self.accept(Token::Else) {
            Some(self.statement()?)
        } else {
            None
        };
        Ok(Statement::_if(condition, consequence, alternative))
    }

    /// What follows `while`: `"(" expression ")" statement`.
    fn while_statement(&mut self) -> (r: Result<Statement, ParseError>)
        ensures
            final(self).text() == old(self).text(),
            final(self).in_bounds(),
            stmt_outcome(r, final(self).pos()) == grammar::while_statement(
                old(self).text(),
                old(self).pos(),
            ),
            r is Ok ==> old(self).pos() < final(self).pos(),
            r matches Ok(statement) ==> statement is While,
        decreases remaining(old(self).text(), old(self).pos()), 37int,
    {
        self.expect(Token::Lparen)?;
        let condition = self.condition()?;
        let body = self.statement()?;
        Ok(Statement::_while(condition, body))
    }

    /// The initializer of a `for`: `let ... | expression ";"? | ";"`.
    fn for_initializer(&mut self) -> (r: Result<Option<Statement>, ParseError>)
        ensures
            final(self).text() == old(self).text(),
            final(self).in_bounds(),
            match r {
                Ok(initializer) => grammar::for_initializer(old(self).text(), old(self).pos())
                    == Ok::<(Option<SpecStmt>, int), SpecParseError>(
                    (
                        match initializer {
                            Some(statement) => Some(statement@),
                            None => None,
                        },
                        final(self).pos(),
                    ),
                ),
                Err(error) => grammar::for_initializer(old(self).text(), old(self).pos()) == Err::<
                    (Option<SpecStmt>, int),
                    SpecParseError,
                >(error@),
            },
            r is Ok ==> old(self).pos() < final(self).pos(),
        decreases remaining(old(self).text(), old(self).pos()), 36int,
    {
        if self.accept(Token::Let) {
            return Ok(Some(self.var_decl()?));
        }
        if self.accept(Token::Semicolon) {
            return Ok(None);
        }
        let statement = self.expression_statement()?;
        let _ = self.accept(Token::Semicolon);
        Ok(Some(statement))
    }

    /// The condition of a `for`, with the semicolon after it:
    /// `expression? ";"`. A condition left out is `true`.
    fn for_condition(&mut self) -> (r: Result<Expression, ParseError>)
        ensures
            final(self).text() == old(self).text(),
            final(self).in_bounds(),
            expr_outcome(r, final(self).pos()) == grammar::for_condition(
                old(self).text(),
                old(self).pos(),
            ),
            r is Ok ==> old(self).pos() < final(self).pos(),
        decreases remaining(old(self).text(), old(self).pos()), 36int,
    {
        if self.accept(Token::Semicolon) {
            return Ok(Expression::literal(ParserValue::bool(true)));
        }
        let condition = self.expression()?;
        self.expect(Token::Semicolon)?;
        Ok(condition)
    }

    /// The increment of a `for`, with the parenthesis after it:
    /// `expression? ")"`.
    fn for_increment(&mut self) -> (r: Result<Option<Expression>, ParseError>)
        ensures
            final(self).text() == old(self).text(),
            final(self).in_bounds(),
            match r {
                Ok(increment) => grammar::for_increment(old(self).text(), old(self).pos()) == Ok::<
                    (Option<SpecExpr>, int),
                    SpecParseError,
                >(
                    (
                        match increment {
                            Some(expression) => Some(expression@),
                            None => None,
                        },
                        final(self).pos(),
                    ),
                ),
                Err(error) => grammar::for_increment(old(self).text(), old(self).pos()) == Err::<
                    (Option<SpecExpr>, int),
                    SpecParseError,
                >(error@),
            },
            r is Ok ==> old(self).pos() < final(self).pos(),
        decreases remaining(old(self).text(), old(self).pos()), 36int,
    {
        if self.accept(Token::Rparen) {
            return Ok(None);
        }
        let increment = self.expression()?;
        self.expect(Token::Rparen)?;
        Ok(Some(increment))
    }

    /// What follows `for`:
    /// `"(" (let | expression ";"? | ";") expression? ";" expression? ")" statement`.
    /// The result is the loop that the `for` stands for: the body, followed
    /// by the increment in a block where there is an increment, in a `while`
    /// over the condition, which follows the initializer in a block where
    /// there is an initializer.
    pub fn for_statement(&mut self) -> (r: Result<Statement, ParseError>)
        ensures
            final(self).text() == old(self).text(),
            final(self).in_bounds(),
            stmt_outcome(r, final(self).pos()) == grammar::for_statement(
                old(self).text(),
                old(self).pos(),
            ),
            r is Ok ==> old(self).pos() < final(self).pos(),
            r matches Ok(statement) ==> !(statement is Let),
        decreases remaining(old(self).text(), old(self).pos()), 37int,
    {
        self.expect(Token::Lparen)?;
        let initializer = self.for_initializer()?;
        let condition = self.for_condition()?;
        let increment = self.for_increment()?;
        let mut body = self.statement()?;
        if let Some(increment) = increment {
            let ghost inner = body@;
            let ghost step = increment@;
            let mut parts: Vec<Statement> = Vec::new();
            parts.push(body);
            parts.push(Statement::_expression(increment));
            assert(stmts_view(parts@) =~= seq![inner, SpecStmt::Expression(step)]);
            body = Statement::_block(parts);
        }
        body = Statement::_while(condition, body);
        if let Some(initializer) = initializer {
            let ghost first = initializer@;
            let ghost repeated = body@;
            let mut parts: Vec<Statement> = Vec::new();
            parts.push(initializer);
            parts.push(body);
            assert(stmts_view(parts@) =~= seq![first, repeated]);
            body = Statement::_block(parts);
        }
        Ok(body)
    }

    /// What follows `print`: `expression ";"?`.
    fn print_statement(&mut self) -> (r: Result<Statement, ParseError>)
        ensures
            final(self).text() == old(self).text(),
            final(self).in_bounds(),
            stmt_outcome(r, final(self).pos()) == grammar::print_statement(
                old(self).text(),
                old(self).pos(),
            ),
            r is Ok ==> old(self).pos() < final(self).pos(),
            r matches Ok(statement) ==> statement is Print,
        decreases remaining(old(self).text(), old(self).pos()), 35int,
    {
        let expression = self.expression()?;
        let _ = self.accept(Token::Semicolon);
        Ok(Statement::print(expression))
    }

    /// What follows `return`: `expression?`. The value is left out where a
    /// semicolon, a closing brace or the end of the text comes next; what is
    /// returned then is `null`.
    fn return_statement(&mut self) -> (r: Result<Statement, ParseError>)
        ensures
            final(self).text() == old(self).text(),
            final(self).in_bounds(),
            stmt_outcome(r, final(self).pos()) == grammar::return_statement(
                old(self).text(),
                old(self).pos(),
            ),
            r is Ok ==> old(self).pos() <= final(self).pos(),
            r matches Ok(statement) ==> statement is Return,
        decreases remaining(old(self).text(), old(self).pos()), 35int,
    {
        let bare = match self.peek() {
            Ok(Token::Semicolon) => true,
            Ok(Token::RSquirly) => true,
            Ok(Token::Eof) => true,
            _ => false,
        };
        if bare {
            Ok(Statement::_return(Expression::literal(ParserValue::null())))
        } else {
            let value = self.expression()?;
            Ok(Statement::_return(value))
        }
    }

    /// `program -> declaration* EOF`: the statements of the text from where
    /// the parser stands up to its end, in order. The first error ends the
    /// parse, and no statement is returned then. What is returned is well
    /// shaped: no branch of an `if` in it is a bare `let`.
    pub fn parse(&mut self) -> (r: Result<Vec<Statement>, ParseError>)
        ensures
            final(self).text() == old(self).text(),
            parse_outcome(r) == grammar::program_from(
                old(self).text(),
                old(self).pos(),
                Seq::empty(),
            ),
            r matches Ok(statements) ==> crate::shape::all_shaped(stmts_view(statements@)),
    {
        proof {
            crate::shape::lemma_program_from_shaped(self.text(), self.pos(), Seq::empty());
        }
        let mut statements: Vec<Statement> = Vec::new();
        assert(stmts_view(statements@) =~= Seq::<SpecStmt>::empty());
        while !self.lexer.is_at_end()
            invariant
                self.text() == old(self).text(),
                grammar::program_from(self.text(), self.pos(), stmts_view(statements@))
                    == grammar::program_from(old(self).text(), old(self).pos(), Seq::empty()),
            decreases remaining(self.text(), self.pos()),
        {
            let ghost seen = statements@;
            let statement = self.declaration()?;
            proof {
                lemma_stmts_view_push(seen, statement);
            }
            statements.push(statement);
            let _ = self.accept(Token::Semicolon);
        }
        Ok(statements)
    }
}

/// Parsing is a function of the text: where two parsers stand at the same
/// position of the same text, what the one parses is what the other parses,
/// statement for statement, and where the one fails the other fails with the
/// same error.
pub proof fn lemma_parsing_twice_gives_the_same(
    first: Parser,
    second: Parser,
    one: Result<Vec<Statement>, ParseError>,
    other: Result<Vec<Statement>, ParseError>,
)
    requires
        first.text() == second.text(),
        first.pos() == second.pos(),
        parse_outcome(one) == grammar::program_from(first.text(), first.pos(), Seq::empty()),
        parse_outcome(other) == grammar::program_from(second.text(), second.pos(), Seq::empty()),
    ensures
        parse_outcome(one) == parse_outcome(other),
        one matches Ok(statements) ==> other matches Ok(others) && stmts_view(statements@)
            == stmts_view(others@),
{
}

/// What is parsed depends on the tokens alone: where two parsers have the
/// same tokens before them, in whatever texts and however laid out, what the
/// one parses is what the other parses, statement for statement, and where
/// the one fails the other fails with the same error.
pub proof fn lemma_parsing_depends_on_tokens(
    first: Parser,
    second: Parser,
    one: Result<Vec<Statement>, ParseError>,
    other: Result<Vec<Statement>, ParseError>,
)
    requires
        crate::stream::same_tokens(first.text(), first.pos(), second.text(), second.pos()),
        parse_outcome(one) == grammar::program_from(first.text(), first.pos(), Seq::empty()),
        parse_outcome(other) == grammar::program_from(second.text(), second.pos(), Seq::empty()),
    ensures
        parse_outcome(one) == parse_outcome(other),
{
    crate::stream::lemma_program_from_agrees(
        first.text(),
        first.pos(),
        second.text(),
        second.pos(),
        Seq::empty(),
    );
}

} // verus!
