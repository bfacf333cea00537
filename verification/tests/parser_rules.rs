use monkey::lexer;
use monkey::lexer::token::{Literal, Name, Token};
use monkey::parser::ast::{Expression, Identifier, Program, Statement};
use monkey::parser::{ParseError, Parser};

fn parse(source: &str) -> Result<Program, ParseError> {
    Parser::new(lexer::new(String::from(source))).parse_program()
}

fn let_name(statement: &Statement) -> &str {
    match statement {
        Statement::LetStatement(identifier, _) => identifier.value.as_str(),
        other => panic!("not a let statement: {:?}", other),
    }
}

#[test]
fn three_let_statements_in_order() {
    let program = parse("let x = 5; let y = 10; let foobar = 838383;").unwrap();

    assert_eq!(program.len(), 3);
    assert_eq!(let_name(&program[0]), "x");
    assert_eq!(let_name(&program[1]), "y");
    assert_eq!(let_name(&program[2]), "foobar");
}

#[test]
fn let_statement_keeps_the_identifier_token() {
    let program = parse("let foobar = 838383;").unwrap();

    match &program[0] {
        Statement::LetStatement(identifier, _) => {
            assert_eq!(identifier.token.name, Name::IDENT(String::from("foobar")));
            assert_eq!(identifier.token.literal.chars, b"foobar".to_vec());
            assert_eq!(identifier.value, "foobar");
        },
        other => panic!("not a let statement: {:?}", other),
    }
}

#[test]
fn let_expression_is_its_own_identifier() {
    let program = parse("let x = 1 + 2 * y;").unwrap();

    assert_eq!(program.len(), 1);
    match &program[0] {
        Statement::LetStatement(identifier, Expression::Identifier(expression)) => {
            assert_eq!(identifier.value, "x");
            assert_eq!(expression.value, "x");
            assert_eq!(expression.token.name, Name::IDENT(String::from("x")));
        },
        other => panic!("not a let statement: {:?}", other),
    }
}

#[test]
fn missing_identifier_is_an_error() {
    assert_eq!(parse("let = 5;").unwrap_err(), ParseError::ExpectedIdent(Name::ASSIGN));
    assert_eq!(parse("let 5 = 5;").unwrap_err(), ParseError::ExpectedIdent(Name::INT(5)));
    assert_eq!(parse("let let = 5;").unwrap_err(), ParseError::ExpectedIdent(Name::LET));
    assert_eq!(parse("let").unwrap_err(), ParseError::ExpectedIdent(Name::EOF));
}

#[test]
fn missing_assignment_is_an_error() {
    assert_eq!(parse("let x 5;").unwrap_err(), ParseError::ExpectedAssign(Name::INT(5)));
    assert_eq!(parse("let x == 5;").unwrap_err(), ParseError::ExpectedAssign(Name::EQ));
    assert_eq!(
        parse("let x y = 5;").unwrap_err(),
        ParseError::ExpectedAssign(Name::IDENT(String::from("y")))
    );
    assert_eq!(parse("let x").unwrap_err(), ParseError::ExpectedAssign(Name::EOF));
}

#[test]
fn first_error_ends_the_run() {
    assert_eq!(
        parse("let x = 5; let = 6; let y 7;").unwrap_err(),
        ParseError::ExpectedIdent(Name::ASSIGN)
    );
}

#[test]
fn empty_program() {
    assert_eq!(parse("").unwrap().len(), 0);
    assert_eq!(parse("  \n ").unwrap().len(), 0);
}

#[test]
fn return_and_expression_statements_take_one_token() {
    let program = parse("return 5;").unwrap();

    assert_eq!(program.len(), 3);
    assert!(matches!(program[0], Statement::ReturnStatement));
    assert!(matches!(program[1], Statement::ExpressionStatement));
    assert!(matches!(program[2], Statement::ExpressionStatement));
}

#[test]
fn semicolon_after_let_is_passed_over() {
    let program = parse("let x = 5; return").unwrap();

    assert_eq!(program.len(), 2);
    assert_eq!(let_name(&program[0]), "x");
    assert!(matches!(program[1], Statement::ReturnStatement));
}

#[test]
fn illegal_token_is_an_expression_statement() {
    let program = parse("#").unwrap();

    assert_eq!(program.len(), 1);
    assert!(matches!(program[0], Statement::ExpressionStatement));
}

#[test]
fn let_without_semicolon_ends_at_end_of_input() {
    let program = parse("let x = 5").unwrap();

    assert_eq!(program.len(), 1);
    assert_eq!(let_name(&program[0]), "x");

    let program = parse("let x =").unwrap();
    assert_eq!(program.len(), 1);
}

#[test]
fn let_inside_a_let_is_passed_over() {
    let program = parse("let x = let y = 1; let z = 2;").unwrap();

    assert_eq!(program.len(), 2);
    assert_eq!(let_name(&program[0]), "x");
    assert_eq!(let_name(&program[1]), "z");
}

#[test]
fn parser_stands_on_end_of_input_after_a_program() {
    let mut parser = Parser::new(lexer::new(String::from("let x = 5; y")));

    assert_eq!(parser.parse_program().unwrap().len(), 2);
    assert_eq!(parser.parse_program().unwrap().len(), 0);
}

#[test]
fn statement_by_statement() {
    let mut parser = Parser::new(lexer::new(String::from("let a = 1; return; b")));

    assert_eq!(let_name(&parser.parse_statement().unwrap()), "a");
    parser.next_token();
    assert!(matches!(parser.parse_statement().unwrap(), Statement::ReturnStatement));
    assert!(matches!(parser.parse_return_statement(), Statement::ReturnStatement));
    assert!(matches!(parser.parse_expression_statement(), Statement::ExpressionStatement));
    parser.next_token();
    parser.next_token();
    assert!(matches!(parser.parse_statement().unwrap(), Statement::ExpressionStatement));
    parser.next_token();
    assert_eq!(parser.parse_program().unwrap().len(), 0);
}

#[test]
fn parse_let_statement_does_not_look_at_the_current_token() {
    let mut parser = Parser::new(lexer::new(String::from("return x = 5; y")));

    assert_eq!(let_name(&parser.parse_let_statement().unwrap()), "x");
    parser.next_token();
    assert!(matches!(parser.parse_statement().unwrap(), Statement::ExpressionStatement));
}

#[test]
fn identifier_takes_its_text_from_the_literal() {
    let token = Token::new(Name::IDENT(String::from("x")), Literal::new(b"abc".to_vec()));
    let identifier = Identifier::new(token);

    assert_eq!(identifier.value, "abc");
    assert_eq!(identifier.token.name, Name::IDENT(String::from("x")));

    let copy = identifier.clone();
    assert_eq!(copy.value, "abc");
    assert_eq!(copy.token.literal.chars, b"abc".to_vec());
}
