use jslite::ast::{BlockStatement, Expression, ParserValue, Statement};
use jslite::ident::Ident;
use jslite::lexer::LexError;
use jslite::operator::Operator;
use jslite::parser::{ParseError, Parser};
use jslite::token::Token;

fn number(text: &str) -> Expression {
    Expression::literal(ParserValue::number(text))
}

#[test]
fn parser_let_statement() {
    let mut parser = Parser::new("let a = 1;");
    let stmt = parser.parse().unwrap();

    assert_eq!(
        stmt,
        vec![Statement::_let(
            Ident::new("a"),
            Some(Expression::literal(ParserValue::number("1")))
        )]
    );
}

#[test]
fn parser_literal_expression() {
    let mut parser = Parser::new("1;");
    let expr = parser.expression().unwrap();

    assert_eq!(expr, Expression::literal(ParserValue::number("1")));
}

#[test]
fn parser_binary_expression() {
    let mut parser = Parser::new("1 + 2;");
    let expr = parser.expression().unwrap();

    assert_eq!(
        expr,
        Expression::binary(
            Expression::literal(ParserValue::number("1")),
            Operator::Plus,
            Expression::literal(ParserValue::number("2")),
        )
    );
}

#[test]
fn parser_grouping_expression() {
    let mut parser = Parser::new("(1 + 2);");
    let expr = parser.expression().unwrap();

    assert_eq!(
        expr,
        Expression::grouping(Expression::binary(
            Expression::literal(ParserValue::number("1")),
            Operator::Plus,
            Expression::literal(ParserValue::number("2")),
        ))
    );
}

#[test]
fn parser_unary_expression() {
    let mut parser = Parser::new("!true;");
    let expr = parser.expression().unwrap();

    assert_eq!(
        expr,
        Expression::unary(Operator::Bang, Expression::literal(ParserValue::Bool(true)))
    );
}

#[test]
fn parser_unary_expression_with_grouping() {
    let mut parser = Parser::new("!(!true);");
    let expr = parser.expression().unwrap();

    assert_eq!(
        expr,
        Expression::unary(
            Operator::Bang,
            Expression::grouping(Expression::unary(
                Operator::Bang,
                Expression::literal(ParserValue::Bool(true))
            ))
        )
    );
}

#[test]
fn parser_unary_expression_with_grouping_and_binary() {
    let mut parser = Parser::new("!(!true + 1);");
    let expr = parser.expression().unwrap();

    assert_eq!(
        expr,
        Expression::unary(
            Operator::Bang,
            Expression::grouping(Expression::binary(
                Expression::unary(Operator::Bang, Expression::literal(ParserValue::Bool(true))),
                Operator::Plus,
                Expression::literal(ParserValue::number("1")),
            ))
        )
    );
}

#[test]
fn parser_binary_expression_with_precedence() {
    let mut parser = Parser::new("1 + 2 * 3;");
    let expr = parser.expression().unwrap();

    assert_eq!(
        expr,
        Expression::binary(
            Expression::literal(ParserValue::number("1")),
            Operator::Plus,
            Expression::binary(
                Expression::literal(ParserValue::number("2")),
                Operator::Asterisk,
                Expression::literal(ParserValue::number("3")),
            ),
        )
    );
}

#[test]
fn parser_binary_expression_with_precedence_and_grouping() {
    let mut parser = Parser::new("(1 + 2) * 3;");
    let expr = parser.expression().unwrap();

    assert_eq!(
        expr,
        Expression::binary(
            Expression::grouping(Expression::binary(
                Expression::literal(ParserValue::number("1")),
                Operator::Plus,
                Expression::literal(ParserValue::number("2")),
            )),
            Operator::Asterisk,
            Expression::literal(ParserValue::number("3")),
        )
    );
}

#[test]
fn parser_let_statement_uninitialized() {
    let mut parser = Parser::new("let a;");
    let stmt = parser.parse().unwrap();

    assert_eq!(stmt.len(), 1);
    for stmt in stmt {
        assert_eq!(stmt, Statement::_let(Ident::new("a"), None,));
    }
}

#[test]
fn parser_let_statement_initialized() {
    let mut parser = Parser::new("let a = 1;");
    let stmt = parser.parse().unwrap();

    assert_eq!(stmt.len(), 1);
    for stmt in stmt {
        assert_eq!(
            stmt,
            Statement::_let(
                Ident::new("a"),
                Some(Expression::Literal(ParserValue::number("1"))),
            )
        );
    }
}

#[test]
fn parser_expression_statement() {
    let mut parser = Parser::new("1;");
    let stmt = parser.parse().unwrap();

    assert_eq!(stmt.len(), 1);
    for stmt in stmt {
        assert_eq!(
            stmt,
            Statement::Expression(Expression::Literal(ParserValue::number("1")))
        );
    }
}

#[test]
fn parser_block_statement() {
    let mut parser = Parser::new("{ 1; }");
    let stmt = parser.parse().unwrap();

    assert_eq!(stmt.len(), 1);
    for stmt in stmt {
        assert_eq!(
            stmt,
            Statement::_block(vec![Statement::_expression(Expression::literal(
                ParserValue::number("1")
            ))])
        );
    }
}

#[test]
fn parser_empty_block_statement() {
    let mut parser = Parser::new("{ }");
    let stmt = parser.parse().unwrap();

    assert_eq!(stmt.len(), 1);
    for stmt in stmt {
        assert_eq!(stmt, Statement::_block(vec![]));
    }
}

#[test]
fn parser_if_statement() {
    let mut parser = Parser::new("if (true) { 1; }");
    let stmt = parser.parse().unwrap();

    assert_eq!(stmt.len(), 1);
    for stmt in stmt {
        assert_eq!(
            stmt,
            Statement::_if(
                Expression::Literal(ParserValue::Bool(true)),
                Statement::_block(vec![Statement::Expression(Expression::Literal(
                    ParserValue::number("1")
                ))],),
                None,
            )
        );
    }
}

#[test]
fn function_statement() {
    let mut parser = Parser::new("function a() { let b = 1; }");
    let stmt = parser.parse().unwrap();

    assert_eq!(stmt.len(), 1);
    for stmt in stmt {
        assert_eq!(
            stmt,
            Statement::function(
                Ident::new("a"),
                vec![],
                BlockStatement::new(vec![Statement::_let(
                    Ident::new("b"),
                    Some(Expression::Literal(ParserValue::number("1")))
                ),],),
            )
        );
    }
}

#[test]
fn return_statement() {
    let mut parser = Parser::new("return 1; return; return a;");
    let stmt = parser.parse().unwrap();

    let expected = vec![
        Statement::_return(Expression::literal(ParserValue::number("1"))),
        Statement::_return(Expression::literal(ParserValue::Null)),
        Statement::_return(Expression::variable("a")),
    ];

    assert_eq!(stmt, expected);
}

#[test]
fn function_with_closures() {
    let mut parser = Parser::new(
        "function makeCounter() {
            let i = 0;
            
            function count() {
                i = i + 1;
                print i; 
            }
        
            return count;
        }",
    );
    let stmt = parser.parse().unwrap();

    let expected = vec![Statement::function(
        Ident::new("makeCounter"),
        vec![],
        BlockStatement::new(vec![
            Statement::_let(
                Ident::new("i"),
                Some(Expression::literal(ParserValue::number("0"))),
            ),
            Statement::function(
                Ident::new("count"),
                vec![],
                BlockStatement::new(vec![
                    Statement::_expression(Expression::assignement(
                        Ident::new("i"),
                        Expression::binary(
                            Expression::variable("i"),
                            Operator::Plus,
                            Expression::literal(ParserValue::number("1")),
                        ),
                    )),
                    Statement::print(Expression::variable("i")),
                ]),
            ),
            Statement::_return(Expression::variable("count")),
        ]),
    )];

    assert_eq!(stmt, expected);
}

#[test]
fn parsing_twice_gives_the_same_tree() {
    let source = "function f(a, b) { if (a < b) { return a; } else { return b; } }
        let x = f(1, 2) * (3 - 4) / 5; for (let i = 0; i < 3; i = i + 1) { print i; }";
    let first = Parser::new(source).parse();
    let second = Parser::new(source).parse();
    assert!(first.is_ok());
    assert_eq!(first, second);
}

#[test]
fn for_is_rewritten_into_while() {
    let stmt = Parser::new("for (let i = 0; i < 3; i = i + 1) { print i; }").parse().unwrap();
    let expected = vec![Statement::_block(vec![
        Statement::_let(Ident::new("i"), Some(number("0"))),
        Statement::_while(
            Expression::binary(Expression::variable("i"), Operator::LessThan, number("3")),
            Statement::_block(vec![
                Statement::_block(vec![Statement::print(Expression::variable("i"))]),
                Statement::_expression(Expression::assignement(
                    Ident::new("i"),
                    Expression::binary(Expression::variable("i"), Operator::Plus, number("1")),
                )),
            ]),
        ),
    ])];
    assert_eq!(stmt, expected);
}

#[test]
fn for_without_clauses_loops_on_true() {
    let stmt = Parser::new("for (;;) x;").parse().unwrap();
    let expected = vec![Statement::_while(
        Expression::literal(ParserValue::bool(true)),
        Statement::_expression(Expression::variable("x")),
    )];
    assert_eq!(stmt, expected);
}

#[test]
fn for_with_an_expression_as_initializer() {
    let stmt = Parser::new("for (i = 0; i < 2;) f();").parse().unwrap();
    let expected = vec![Statement::_block(vec![
        Statement::_expression(Expression::assignement(Ident::new("i"), number("0"))),
        Statement::_while(
            Expression::binary(Expression::variable("i"), Operator::LessThan, number("2")),
            Statement::_expression(Expression::call(Expression::variable("f"), vec![])),
        ),
    ])];
    assert_eq!(stmt, expected);
    let mut parser = Parser::new("(let i = 0; i < 1;) g;");
    assert!(parser.for_statement().is_ok());
}

#[test]
fn binary_operators_group_from_the_left_and_by_level() {
    let expr = Parser::new("1 - 2 - 3 < 4 == true && a || b").expression().unwrap();
    let expected = Expression::binary(
        Expression::binary(
            Expression::binary(
                Expression::binary(
                    Expression::binary(
                        Expression::binary(number("1"), Operator::Minus, number("2")),
                        Operator::Minus,
                        number("3"),
                    ),
                    Operator::LessThan,
                    number("4"),
                ),
                Operator::Equal,
                Expression::literal(ParserValue::bool(true)),
            ),
            Operator::And,
            Expression::variable("a"),
        ),
        Operator::Or,
        Expression::variable("b"),
    );
    assert_eq!(expr, expected);
}

#[test]
fn assignment_and_unary_group_from_the_right() {
    let expr = Parser::new("a = b = !-c").expression().unwrap();
    let expected = Expression::assignement(
        Ident::new("a"),
        Expression::assignement(
            Ident::new("b"),
            Expression::unary(
                Operator::Bang,
                Expression::unary(Operator::Minus, Expression::variable("c")),
            ),
        ),
    );
    assert_eq!(expr, expected);
}

#[test]
fn calls_chain() {
    let expr = Parser::new("f(1, x)()").expression().unwrap();
    let expected = Expression::call(
        Expression::call(Expression::variable("f"), vec![number("1"), Expression::variable("x")]),
        vec![],
    );
    assert_eq!(expr, expected);
}

#[test]
fn function_expression_has_no_name() {
    let stmt = Parser::new("let f = function(a) { return a; };").parse().unwrap();
    let expected = vec![Statement::_let(
        Ident::new("f"),
        Some(Expression::literal(ParserValue::function(
            None,
            vec![Ident::new("a")],
            BlockStatement::new(vec![Statement::_return(Expression::variable("a"))]),
        ))),
    )];
    assert_eq!(stmt, expected);
}

#[test]
fn if_with_else_and_string() {
    let stmt = Parser::new("if (a) print \"x\"; else { }").parse().unwrap();
    let expected = vec![Statement::_if(
        Expression::variable("a"),
        Statement::print(Expression::literal(ParserValue::string("x"))),
        Some(Statement::_block(vec![])),
    )];
    assert_eq!(stmt, expected);
}

#[test]
fn semicolons_are_optional_and_whitespace_is_free() {
    let a = Parser::new("let a = 1 let b = a print b").parse().unwrap();
    let b = Parser::new("  let a=1;\n\nlet b\t= a ;print b;\n\n  ").parse().unwrap();
    assert_eq!(a.len(), 3);
    assert_eq!(a, b);
    assert_eq!(Parser::new("").parse(), Ok(vec![]));
    assert_eq!(Parser::new(" \n ").parse(), Ok(vec![]));
    assert_eq!(Parser::new("1").parse(), Ok(vec![Statement::_expression(number("1"))]));
}

#[test]
fn return_may_end_a_block_without_a_value() {
    let stmt = Parser::new("function f() { return }").parse().unwrap();
    let expected = vec![Statement::function(
        Ident::new("f"),
        vec![],
        BlockStatement::new(vec![Statement::_return(Expression::literal(ParserValue::null()))]),
    )];
    assert_eq!(stmt, expected);
}

#[test]
fn a_bare_let_is_no_branch_of_an_if() {
    assert_eq!(
        Parser::new("if (a) let b = 1;").parse(),
        Err(ParseError::ExpectedExpression { found: Token::Let })
    );
    assert_eq!(
        Parser::new("if (a) { } else let b = 1;").parse(),
        Err(ParseError::ExpectedExpression { found: Token::Let })
    );
    assert!(Parser::new("if (a) { let b = 1; }").parse().is_ok());
}

#[test]
fn unexpected_tokens_are_reported_with_what_was_expected() {
    assert_eq!(
        Parser::new("(1 + 2;").parse(),
        Err(ParseError::UnexpectedToken { expected: Token::Rparen, found: Token::Semicolon })
    );
    assert_eq!(
        Parser::new("if a").parse(),
        Err(ParseError::UnexpectedToken { expected: Token::Lparen, found: Token::ident("a") })
    );
    assert_eq!(
        Parser::new("{ 1;").parse(),
        Err(ParseError::UnexpectedToken { expected: Token::RSquirly, found: Token::Eof })
    );
    assert_eq!(
        Parser::new("function f() 1").parse(),
        Err(ParseError::UnexpectedToken { expected: Token::LSquirly, found: Token::number("1") })
    );
    assert_eq!(
        Parser::new("for (;;").parse(),
        Err(ParseError::ExpectedExpression { found: Token::Eof })
    );
    assert_eq!(
        Parser::new("for (; 1 )").parse(),
        Err(ParseError::UnexpectedToken { expected: Token::Semicolon, found: Token::Rparen })
    );
}

#[test]
fn names_and_expressions_are_required_where_the_grammar_asks() {
    assert_eq!(
        Parser::new("let 1 = 2;").parse(),
        Err(ParseError::ExpectedIdentifier { found: Token::number("1") })
    );
    assert_eq!(
        Parser::new("function (a) { }").parse(),
        Err(ParseError::ExpectedIdentifier { found: Token::Lparen })
    );
    assert_eq!(
        Parser::new("function f(a, ) { }").parse(),
        Err(ParseError::ExpectedIdentifier { found: Token::Rparen })
    );
    assert_eq!(
        Parser::new("1 + ;").parse(),
        Err(ParseError::ExpectedExpression { found: Token::Semicolon })
    );
    assert_eq!(Parser::new("print").parse(), Err(ParseError::ExpectedExpression { found: Token::Eof }));
}

#[test]
fn only_a_variable_can_be_assigned_to() {
    assert_eq!(Parser::new("1 = 2;").parse(), Err(ParseError::InvalidAssignmentTarget));
    assert_eq!(Parser::new("f() = 2;").parse(), Err(ParseError::InvalidAssignmentTarget));
    assert_eq!(Parser::new("(a) = 2;").parse(), Err(ParseError::InvalidAssignmentTarget));
    assert_eq!(
        Parser::new("1 = ;").parse(),
        Err(ParseError::ExpectedExpression { found: Token::Semicolon })
    );
}

#[test]
fn lexical_errors_end_the_parse() {
    assert_eq!(
        Parser::new("let a = 1; #").parse(),
        Err(ParseError::Lex(LexError::IllegalCharacter { byte: b'#', position: 11 }))
    );
    assert_eq!(
        Parser::new("print \"abc").parse(),
        Err(ParseError::Lex(LexError::UnterminatedString { position: 6 }))
    );
    assert_eq!(
        Parser::new("f(1 & 2)").parse(),
        Err(ParseError::Lex(LexError::IllegalCharacter { byte: b'&', position: 4 }))
    );
}

fn list(count: usize) -> String {
    let mut text = String::new();
    for i in 0..count {
        if i > 0 {
            text.push_str(", ");
        }
        text.push_str("a");
    }
    text
}

#[test]
fn at_most_255_parameters_and_arguments() {
    let ok = format!("function f({}) {{ }}", list(255));
    let parsed = Parser::new(&ok).parse().unwrap();
    match &parsed[0] {
        Statement::Function(f) => assert_eq!(f.parameters.len(), 255),
        other => panic!("not a function: {:?}", other),
    }
    let too_many = format!("function f({}) {{ }}", list(256));
    assert_eq!(Parser::new(&too_many).parse(), Err(ParseError::TooManyParameters));

    let ok = format!("f({});", list(255));
    let parsed = Parser::new(&ok).parse().unwrap();
    match &parsed[0] {
        Statement::Expression(Expression::Call { arguments, .. }) => assert_eq!(arguments.len(), 255),
        other => panic!("not a call: {:?}", other),
    }
    let too_many = format!("f({});", list(256));
    assert_eq!(Parser::new(&too_many).parse(), Err(ParseError::TooManyArguments));
}

#[test]
fn a_clone_is_equal_to_what_was_cloned() {
    let stmts = Parser::new(
        "function f(a) { while (a) { a = a - 1; } return function() { print a; }; } let g = f(3)(); if (g) { } else { }",
    )
    .parse()
    .unwrap();
    for stmt in &stmts {
        assert_eq!(&stmt.clone(), stmt);
    }
    let block = BlockStatement::new(stmts);
    assert_eq!(block.clone(), block);
    assert_eq!(block.statements().len(), 3);
    assert_eq!(Ident::new("abc").value(), "abc".to_string());
}

#[test]
fn literals_have_a_text() {
    assert_eq!(ParserValue::string("hello").to_text(), "hello");
    assert_eq!(ParserValue::number("1.50").to_text(), "1.50");
    assert_eq!(ParserValue::bool(true).to_text(), "true");
    assert_eq!(ParserValue::bool(false).to_text(), "false");
    assert_eq!(ParserValue::null().to_text(), "null");
    let named = ParserValue::function(Some(Ident::new("f")), vec![], BlockStatement::new(vec![]));
    assert_eq!(named.to_text(), "<function f>");
    let anonymous = ParserValue::function(None, vec![], BlockStatement::new(vec![]));
    assert_eq!(anonymous.to_text(), "<anonymous function>");
}

#[test]
fn the_layout_of_a_text_does_not_matter() {
    let tight = Parser::new("function f(a,b){return a+b*2;}let x=f(1,2);if(x>=5){print\"big\";}else{print x;}").parse();
    let loose = Parser::new(
        "function f ( a , b ) {\n\treturn a + b * 2 ;\n}\n\nlet x = f ( 1 , 2 ) ;\nif ( x >= 5 ) { print \"big\" ; } else { print x ; }\n",
    )
    .parse();
    assert!(tight.is_ok());
    assert_eq!(tight, loose);
}
