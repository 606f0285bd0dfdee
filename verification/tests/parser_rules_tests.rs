use simple_script_compiler::lexer::{Lexer, Literal, Numeral, Token};
use simple_script_compiler::parser::{
    BinaryOp, Expression, ParseError, Parser, Program, Statement,
};

fn parse(source: &str) -> Result<Program, ParseError> {
    Parser::new(Lexer::new(source)).parse()
}

fn num(text: &str) -> Expression {
    Expression::Literal(Literal::Number(Numeral::new(text).expect("a numeral")))
}

fn var(name: &str) -> Expression {
    Expression::Identifier(name.to_string())
}

fn bin(left: Expression, op: BinaryOp, right: Expression) -> Expression {
    Expression::Binary { left: Box::new(left), op, right: Box::new(right) }
}

fn call(name: &str, args: Vec<Expression>) -> Expression {
    Expression::FunctionCall { name: name.to_string(), args }
}

fn only_expression(source: &str) -> Expression {
    let mut program = parse(source).expect("should parse");
    assert_eq!(program.statements.len(), 1);
    match program.statements.remove(0) {
        Statement::Expression(e) => e,
        other => panic!("expected an expression statement, got {:?}", other),
    }
}

fn unexpected(source: &str) -> (String, Token) {
    match parse(source) {
        Err(ParseError::UnexpectedToken { expected, found }) => (expected, found),
        other => panic!("{:?} gave {:?}", source, other),
    }
}

#[test]
fn subtraction_is_left_associative() {
    assert_eq!(
        only_expression("a - b - c;"),
        bin(bin(var("a"), BinaryOp::Subtract, var("b")), BinaryOp::Subtract, var("c"))
    );
    assert_eq!(
        only_expression("a / b * c;"),
        bin(bin(var("a"), BinaryOp::Divide, var("b")), BinaryOp::Multiply, var("c"))
    );
    assert_eq!(
        only_expression("1 + 2 - 3 + 4;"),
        bin(
            bin(bin(num("1"), BinaryOp::Add, num("2")), BinaryOp::Subtract, num("3")),
            BinaryOp::Add,
            num("4")
        )
    );
}

#[test]
fn multiplication_binds_tighter_than_addition() {
    assert_eq!(
        only_expression("2 + 3 * 4;"),
        bin(num("2"), BinaryOp::Add, bin(num("3"), BinaryOp::Multiply, num("4")))
    );
    assert_eq!(
        only_expression("2 * 3 + 4;"),
        bin(bin(num("2"), BinaryOp::Multiply, num("3")), BinaryOp::Add, num("4"))
    );
    assert_eq!(
        only_expression("(2 + 3) * 4;"),
        bin(bin(num("2"), BinaryOp::Add, num("3")), BinaryOp::Multiply, num("4"))
    );
    assert_eq!(only_expression("((x));"), var("x"));
}

#[test]
fn calls_take_any_number_of_arguments() {
    assert_eq!(only_expression("f();"), call("f", vec![]));
    assert_eq!(only_expression("f(1);"), call("f", vec![num("1")]));
    assert_eq!(
        only_expression("f(1, x + 2, g(\"s\", true));"),
        call(
            "f",
            vec![
                num("1"),
                bin(var("x"), BinaryOp::Add, num("2")),
                call(
                    "g",
                    vec![
                        Expression::Literal(Literal::String("s".to_string())),
                        Expression::Literal(Literal::Boolean(true)),
                    ]
                ),
            ]
        )
    );
    assert_eq!(
        only_expression("f(1) * 2;"),
        bin(call("f", vec![num("1")]), BinaryOp::Multiply, num("2"))
    );
}

#[test]
fn statements_come_in_order() {
    let program = parse("var a = 1; print(a); var b = a;").expect("should parse");
    assert_eq!(
        program.statements,
        vec![
            Statement::VarDeclaration { name: "a".to_string(), value: num("1") },
            Statement::Expression(call("print", vec![var("a")])),
            Statement::VarDeclaration { name: "b".to_string(), value: var("a") },
        ]
    );
    assert_eq!(program.clone(), program);
    assert_eq!(parse("").expect("empty program").statements, vec![]);
    assert_eq!(parse("  @ ").expect("empty program").statements, vec![]);
}

#[test]
fn a_missing_token_is_reported_with_what_was_found() {
    assert_eq!(unexpected("var = 1;"), ("identifier".to_string(), Token::Equals));
    assert_eq!(unexpected("var"), ("identifier".to_string(), Token::EOF));
    assert_eq!(
        unexpected("var x 1;"),
        ("Equals".to_string(), Token::Literal(Literal::Number(Numeral::new("1").unwrap())))
    );
    assert_eq!(unexpected("var x = 1"), ("SemiColon".to_string(), Token::EOF));
    assert_eq!(unexpected("x"), ("SemiColon".to_string(), Token::EOF));
    assert_eq!(unexpected("x y;"), ("SemiColon".to_string(), Token::Identifier("y".to_string())));
    assert_eq!(unexpected("(1 + 2;"), ("RightParen".to_string(), Token::SemiColon));
}

#[test]
fn a_token_that_begins_no_expression_is_reported() {
    assert_eq!(unexpected("var x = ;"), ("expression".to_string(), Token::SemiColon));
    assert_eq!(unexpected("-x;"), ("expression".to_string(), Token::Subtract));
    assert_eq!(unexpected("1 + ;"), ("expression".to_string(), Token::SemiColon));
    assert_eq!(unexpected("1 * )"), ("expression".to_string(), Token::RightParen));
    assert_eq!(unexpected("f(1,);"), ("expression".to_string(), Token::RightParen));
    assert_eq!(unexpected("f("), ("expression".to_string(), Token::EOF));
    assert_eq!(unexpected("var x = var;"), ("expression".to_string(), Token::Var));
    assert_eq!(unexpected(";"), ("expression".to_string(), Token::SemiColon));
}

#[test]
fn an_unclosed_argument_list_is_reported() {
    assert_eq!(
        unexpected("f(1 2);"),
        ("',' or ')'".to_string(), Token::Literal(Literal::Number(Numeral::new("2").unwrap())))
    );
    assert_eq!(unexpected("f(1;"), ("',' or ')'".to_string(), Token::SemiColon));
    assert_eq!(unexpected("f(x"), ("',' or ')'".to_string(), Token::EOF));
}

#[test]
fn the_first_error_ends_parsing() {
    assert!(parse("var a = 1; var = 2; var c = 3;").is_err());
    assert_eq!(unexpected("var a = 1; b c; )"), ("SemiColon".to_string(), Token::Identifier("c".to_string())));
}

#[test]
fn a_failed_rule_leaves_the_parser_at_the_failing_token() {
    let mut parser = Parser::new(Lexer::new(";"));
    match parser.parse_primary() {
        Err(ParseError::UnexpectedToken { expected, found }) => {
            assert_eq!(expected, "expression");
            assert_eq!(found, Token::SemiColon);
        }
        other => panic!("got {:?}", other),
    }
    assert_eq!(parser.current_token(), &Token::SemiColon);

    let mut parser = Parser::new(Lexer::new("var a = (1 + ; x"));
    assert!(parser.parse().is_err());
    assert_eq!(parser.current_token(), &Token::SemiColon);

    let mut parser = Parser::new(Lexer::new("f(1 2)"));
    assert!(parser.parse_expression().is_err());
    assert_eq!(
        parser.current_token(),
        &Token::Literal(Literal::Number(Numeral::new("2").unwrap()))
    );

    let mut parser = Parser::new(Lexer::new("var 5"));
    assert!(parser.parse_var_declaration().is_err());
    assert_eq!(
        parser.current_token(),
        &Token::Literal(Literal::Number(Numeral::new("5").unwrap()))
    );
}

#[test]
fn expect_token_compares_kinds() {
    let mut parser = Parser::new(Lexer::new("x 1 ; y"));
    assert!(parser.expect_token(Token::Identifier("other".to_string())).is_ok());
    assert!(parser
        .expect_token(Token::Literal(Literal::String("text".to_string())))
        .is_ok());
    match parser.expect_token(Token::Identifier("z".to_string())) {
        Err(ParseError::UnexpectedToken { expected, found }) => {
            assert_eq!(expected, "Identifier");
            assert_eq!(found, Token::SemiColon);
        }
        other => panic!("got {:?}", other),
    }
    assert_eq!(parser.current_token(), &Token::SemiColon);
    match parser.expect_token(Token::Literal(Literal::Boolean(true))) {
        Err(ParseError::UnexpectedToken { expected, found }) => {
            assert_eq!(expected, "Literal");
            assert_eq!(found, Token::SemiColon);
        }
        other => panic!("got {:?}", other),
    }
    assert!(parser.expect_token(Token::SemiColon).is_ok());
    assert_eq!(parser.current_token(), &Token::Identifier("y".to_string()));
    match parser.expect_token(Token::EOF) {
        Err(ParseError::UnexpectedToken { expected, found }) => {
            assert_eq!(expected, "EOF");
            assert_eq!(found, Token::Identifier("y".to_string()));
        }
        other => panic!("got {:?}", other),
    }
}

#[test]
fn the_rules_of_each_level_can_be_used_alone() {
    let mut parser = Parser::new(Lexer::new("2 * 3 + 4"));
    assert_eq!(
        parser.parse_multiplicative().expect("a product"),
        bin(num("2"), BinaryOp::Multiply, num("3"))
    );
    assert_eq!(parser.current_token(), &Token::Add);
    let mut parser = Parser::new(Lexer::new("2 - 3 * 4 ;"));
    assert_eq!(
        parser.parse_additive().expect("a sum"),
        bin(num("2"), BinaryOp::Subtract, bin(num("3"), BinaryOp::Multiply, num("4")))
    );
    assert_eq!(parser.current_token(), &Token::SemiColon);
    let mut parser = Parser::new(Lexer::new("(a, b) c"));
    assert_eq!(
        parser.parse_function_call("f".to_string()).expect("a call"),
        call("f", vec![var("a"), var("b")])
    );
    assert_eq!(parser.current_token(), &Token::Identifier("c".to_string()));
    let mut parser = Parser::new(Lexer::new("x; y"));
    assert_eq!(parser.parse_statement().expect("a statement"), Statement::Expression(var("x")));
    assert_eq!(parser.current_token(), &Token::Identifier("y".to_string()));
}
