//! Parsing `let` statements into a program.

use monkey::ast::Statement;
use monkey::lexer::Lexer;
use monkey::parser::{ParseError, Parser};

#[test]
fn test() {
    let input = "let x = 5;
        let y = 10;
        let foobar = 838383;";

    let lexer = Lexer::new(input.into());
    let mut parser = Parser::new(lexer);

    let program = match parser.parse_program() {
        Some(p) => p,
        None => panic!("parse_program return Node"),
    };

    let statement_count = program.statements.len();
    assert_eq!(
        3, statement_count,
        "program.statements does not contain 3 statements. got={}",
        statement_count
    );

    let names: Vec<String> = vec!["x".into(), "y".into(), "foobar".into()];

    for (i, name) in names.iter().enumerate() {
        let c = &program.statements[i];

        assert_let_statement(&name, &c);
    }
}

fn assert_let_statement(expected_name: &String, statement: &Statement) {
    match statement {
        Statement::Let(l) => assert_eq!(expected_name, &l.name),
        Statement::Expression(_) => panic!(),
    };
}

#[test]
fn parse_skips_tokens_before_a_let_statement() {
    let lexer = Lexer::new("5; let x = 1;".into());
    let mut parser = Parser::new(lexer);
    let program = parser.parse_program().unwrap();
    assert_eq!(program.statements.len(), 1);
    assert_let_statement(&"x".to_string(), &program.statements[0]);
    assert_eq!(parser.errors.len(), 0);
}

#[test]
fn parse_empty_input_gives_empty_program() {
    let lexer = Lexer::new("".into());
    let mut parser = Parser::new(lexer);
    let program = parser.parse_program().unwrap();
    assert_eq!(program.statements.len(), 0);
    assert_eq!(parser.errors.len(), 0);
}

#[test]
fn missing_identifier_yields_expected_identifier_error() {
    let lexer = Lexer::new("let = 5;".into());
    let mut parser = Parser::new(lexer);
    let program = parser.parse_program().unwrap();
    assert_eq!(program.statements.len(), 0);
    assert_eq!(parser.errors.len(), 1);
    assert!(matches!(parser.errors[0], ParseError::ExpectedIdentifier(_)));
}

#[test]
fn missing_assign_yields_expected_assign_error() {
    let lexer = Lexer::new("let x 5;".into());
    let mut parser = Parser::new(lexer);
    let program = parser.parse_program().unwrap();
    assert_eq!(program.statements.len(), 0);
    assert_eq!(parser.errors.len(), 1);
    assert!(matches!(parser.errors[0], ParseError::ExpectedAssign(_)));
}

#[test]
fn missing_semicolon_yields_unexpected_end_error() {
    let lexer = Lexer::new("let x = 5".into());
    let mut parser = Parser::new(lexer);
    let program = parser.parse_program().unwrap();
    assert_eq!(program.statements.len(), 0);
    assert_eq!(parser.errors.len(), 1);
    assert!(matches!(parser.errors[0], ParseError::UnexpectedEndOfInput));
}

#[test]
fn malformed_let_is_skipped_and_parsing_resumes() {
    let lexer = Lexer::new("let let x = 5;".into());
    let mut parser = Parser::new(lexer);
    let program = parser.parse_program().unwrap();
    assert_eq!(program.statements.len(), 1);
    assert_let_statement(&"x".to_string(), &program.statements[0]);
    assert_eq!(parser.errors.len(), 1);
    assert!(matches!(parser.errors[0], ParseError::ExpectedIdentifier(_)));
}

#[test]
fn let_value_is_the_empty_placeholder() {
    let lexer = Lexer::new("let x = 1 + 2;".into());
    let mut parser = Parser::new(lexer);
    let program = parser.parse_program().unwrap();
    assert_eq!(program.statements.len(), 1);
    match &program.statements[0] {
        Statement::Let(l) => {
            assert_eq!(l.name, "x");
            let monkey::ast::Expression::Value(v) = &l.value;
            assert_eq!(v, "");
        }
        Statement::Expression(_) => panic!(),
    }
}
