use mini_pascal::ast::{ASTNode, Expression, Statement, VariableDeclaration};
use mini_pascal::lexer::{tokenize, Token};
use mini_pascal::parser::{Expectation, ParseError, ParseFault, Parser};

fn parse_text(source: &str) -> Result<ASTNode, ParseError> {
    Parser::new(tokenize(source).unwrap()).parse()
}

fn failure(expected: Expectation, found: Option<Token>, lookahead: Option<Token>) -> ParseError {
    ParseError { fault: ParseFault { expected, found }, lookahead }
}

fn var(name: &str) -> Expression {
    Expression::Variable(name.to_string())
}

fn binary(left: Expression, operator: char, right: Expression) -> Expression {
    Expression::BinaryOperation { left: Box::new(left), operator, right: Box::new(right) }
}

fn id(name: &str) -> Token {
    Token::Identifier(name.to_string())
}

fn kw(name: &str) -> Token {
    Token::Keyword(name.to_string())
}

fn body(statements: Vec<Statement>) -> ASTNode {
    ASTNode::Program { variable_section: vec![], statement_section: statements }
}

#[test]
fn test_parser_with_simple_program() {
    let source_code = r#"
            var
                a, b: integer;
                result: integer;

            begin
                a := 10;
                b := 20;
                result := a + b;
                writeln('The result is: ', result);
            end
        "#;

    let tokens = tokenize(source_code).unwrap();
    let mut parser = Parser::new(tokens);
    let ast = parser.parse().unwrap();

    let expected_ast = ASTNode::Program {
        variable_section: vec![
            VariableDeclaration {
                names: vec!["a".to_string(), "b".to_string()],
                declared_type: "integer".to_string(),
            },
            VariableDeclaration {
                names: vec!["result".to_string()],
                declared_type: "integer".to_string(),
            },
        ],
        statement_section: vec![
            Statement::Assignment(
                "a".to_string(),
                Expression::IntegerLiteral(10),
            ),
            Statement::Assignment(
                "b".to_string(),
                Expression::IntegerLiteral(20),
            ),
            Statement::Assignment(
                "result".to_string(),
                Expression::BinaryOperation {
                    left: Box::new(Expression::Variable("a".to_string())),
                    operator: '+',
                    right: Box::new(Expression::Variable("b".to_string())),
                },
            ),
            Statement::Print(vec![
                Expression::StringLiteral("The result is: ".to_string()),
                Expression::Variable("result".to_string()),
            ]),
        ],
    };

    assert_eq!(format!("{:?}", ast), format!("{:?}", expected_ast));
}

#[test]
fn the_smallest_program() {
    assert_eq!(parse_text("var begin end"), Ok(body(vec![])));
}

#[test]
fn parsing_twice_gives_the_same_tree() {
    let source = "var a, b: integer; begin a := 1 + 2; writeln(a, 'x', b * 3); end";
    let first = parse_text(source).unwrap();
    let second = parse_text(source).unwrap();
    assert_eq!(first, second);
    assert_eq!(format!("{:?}", first), format!("{:?}", second));
    // One parser per run; a run leaves nothing behind for the next.
    let tokens = tokenize(source).unwrap();
    let third = Parser::new(tokens.clone()).parse().unwrap();
    let fourth = Parser::new(tokens).parse().unwrap();
    assert_eq!(third, fourth);
    assert_eq!(first, third);
}

#[test]
fn failing_twice_gives_the_same_error() {
    let source = "var a integer; begin end";
    assert_eq!(parse_text(source), parse_text(source));
    assert!(parse_text(source).is_err());
}

#[test]
fn operators_fold_from_the_left_without_precedence() {
    let tree = parse_text("var begin x := a+b*c; end").unwrap();
    let left_first = binary(binary(var("a"), '+', var("b")), '*', var("c"));
    assert_eq!(tree, body(vec![Statement::Assignment("x".to_string(), left_first)]));
    let right_first = binary(var("a"), '+', binary(var("b"), '*', var("c")));
    assert_ne!(tree, body(vec![Statement::Assignment("x".to_string(), right_first)]));
}

#[test]
fn a_chain_of_all_four_operators() {
    let tree = parse_text("var begin x := 1-2/3+4*5; end").unwrap();
    let n = Expression::IntegerLiteral;
    let expected = binary(binary(binary(binary(n(1), '-', n(2)), '/', n(3)), '+', n(4)), '*', n(5));
    assert_eq!(tree, body(vec![Statement::Assignment("x".to_string(), expected)]));
}

#[test]
fn terms_of_each_kind() {
    let tree = parse_text("var begin x := 7; x := y; x := 'text'; end").unwrap();
    assert_eq!(
        tree,
        body(vec![
            Statement::Assignment("x".to_string(), Expression::IntegerLiteral(7)),
            Statement::Assignment("x".to_string(), var("y")),
            Statement::Assignment("x".to_string(), Expression::StringLiteral("text".to_string())),
        ])
    );
}

#[test]
fn print_with_one_and_with_several_items() {
    let tree = parse_text("var begin writeln(1); writeln(a + 1, 'b', c); end").unwrap();
    assert_eq!(
        tree,
        body(vec![
            Statement::Print(vec![Expression::IntegerLiteral(1)]),
            Statement::Print(vec![
                binary(var("a"), '+', Expression::IntegerLiteral(1)),
                Expression::StringLiteral("b".to_string()),
                var("c"),
            ]),
        ])
    );
}

#[test]
fn print_needs_an_item() {
    assert_eq!(
        parse_text("var begin writeln(); end"),
        Err(failure(Expectation::Term, Some(Token::Symbol(')')), Some(Token::Symbol(';'))))
    );
}

#[test]
fn duplicate_names_are_kept() {
    let tree = parse_text("var a, a: integer; a: integer; begin end").unwrap();
    assert_eq!(
        tree,
        ASTNode::Program {
            variable_section: vec![
                VariableDeclaration {
                    names: vec!["a".to_string(), "a".to_string()],
                    declared_type: "integer".to_string(),
                },
                VariableDeclaration {
                    names: vec!["a".to_string()],
                    declared_type: "integer".to_string(),
                },
            ],
            statement_section: vec![],
        }
    );
}

#[test]
fn the_variable_section_stops_at_begin() {
    // `begin` right after `var`: no declaration is read.
    assert_eq!(parse_text("var begin end"), Ok(body(vec![])));
    // Anything else starts a declaration, also `end`.
    assert_eq!(
        parse_text("var end"),
        Err(failure(Expectation::Identifier, Some(kw("end")), Some(Token::EndOfInput)))
    );
}

#[test]
fn the_statement_section_stops_at_end() {
    // What follows `end` is not read.
    let mut parser = Parser::new(tokenize("var begin end x := 1;").unwrap());
    assert_eq!(parser.parse(), Ok(body(vec![])));
    // `begin` inside the statements starts no statement.
    assert_eq!(
        parse_text("var begin begin end"),
        Err(failure(Expectation::Statement, Some(kw("begin")), Some(kw("begin"))))
    );
}

#[test]
fn a_missing_end_is_an_error() {
    assert_eq!(
        parse_text("var begin a := 1;"),
        Err(failure(
            Expectation::Statement,
            Some(Token::EndOfInput),
            Some(Token::EndOfInput)
        ))
    );
    assert_eq!(
        parse_text("var a: integer; begin"),
        Err(failure(
            Expectation::Statement,
            Some(Token::EndOfInput),
            Some(Token::EndOfInput)
        ))
    );
}

#[test]
fn tokens_that_run_out_are_an_error() {
    // No `EndOfInput` at the end: the parser meets the absence of a token.
    assert_eq!(
        Parser::new(vec![]).parse(),
        Err(failure(Expectation::Keyword("var".to_string()), None, None))
    );
    assert_eq!(
        Parser::new(vec![kw("var")]).parse(),
        Err(failure(Expectation::Identifier, None, None))
    );
    assert_eq!(
        Parser::new(vec![kw("var"), kw("begin")]).parse(),
        Err(failure(Expectation::Statement, None, None))
    );
    assert_eq!(
        Parser::new(vec![kw("var"), kw("begin"), id("x"), Token::Assignment]).parse(),
        Err(failure(Expectation::Term, None, None))
    );
    assert_eq!(
        Parser::new(vec![kw("var"), kw("begin"), id("x")]).parse(),
        Err(failure(Expectation::Assignment, None, None))
    );
    assert_eq!(Parser::new(vec![kw("var"), kw("begin"), kw("end")]).parse(), Ok(body(vec![])));
}

#[test]
fn a_wrong_first_keyword() {
    assert_eq!(
        parse_text("begin end"),
        Err(failure(Expectation::Keyword("var".to_string()), Some(kw("begin")), Some(kw("end"))))
    );
    assert_eq!(
        parse_text(""),
        Err(failure(Expectation::Keyword("var".to_string()), Some(Token::EndOfInput), None))
    );
}

#[test]
fn a_wrong_type_keyword() {
    assert_eq!(
        parse_text("var a: real; begin end"),
        Err(failure(
            Expectation::Keyword("integer".to_string()),
            Some(id("real")),
            Some(Token::Symbol(';'))
        ))
    );
    assert_eq!(
        parse_text("var a: begin; begin end"),
        Err(failure(
            Expectation::Keyword("integer".to_string()),
            Some(kw("begin")),
            Some(Token::Symbol(';'))
        ))
    );
}

#[test]
fn a_wrong_symbol() {
    assert_eq!(
        parse_text("var a integer; begin end"),
        Err(failure(Expectation::Symbol(':'), Some(kw("integer")), Some(Token::Symbol(';'))))
    );
    assert_eq!(
        parse_text("var a: integer, begin end"),
        Err(failure(Expectation::Symbol(';'), Some(Token::Symbol(',')), Some(kw("begin"))))
    );
    assert_eq!(
        parse_text("var begin writeln 1; end"),
        Err(failure(
            Expectation::Symbol('('),
            Some(Token::IntegerLiteral(1)),
            Some(Token::Symbol(';'))
        ))
    );
    assert_eq!(
        parse_text("var begin writeln(1; end"),
        Err(failure(Expectation::Symbol(')'), Some(Token::Symbol(';')), Some(kw("end"))))
    );
    assert_eq!(
        parse_text("var begin x := 1 end"),
        Err(failure(Expectation::Symbol(';'), Some(kw("end")), Some(Token::EndOfInput)))
    );
    assert_eq!(
        parse_text("var begin x := (1); end"),
        Err(failure(
            Expectation::Term,
            Some(Token::Symbol('(')),
            Some(Token::IntegerLiteral(1))
        ))
    );
}

#[test]
fn a_missing_assignment_operator() {
    assert_eq!(
        parse_text("var begin x : 1; end"),
        Err(failure(
            Expectation::Assignment,
            Some(Token::Symbol(':')),
            Some(Token::IntegerLiteral(1))
        ))
    );
}

#[test]
fn a_wrong_name_in_a_list() {
    assert_eq!(
        parse_text("var 1: integer; begin end"),
        Err(failure(
            Expectation::Identifier,
            Some(Token::IntegerLiteral(1)),
            Some(Token::Symbol(':'))
        ))
    );
    assert_eq!(
        parse_text("var a, : integer; begin end"),
        Err(failure(
            Expectation::IdentifierAfterComma,
            Some(Token::Symbol(':')),
            Some(kw("integer"))
        ))
    );
    assert_eq!(
        parse_text("var a, integer; begin end"),
        Err(failure(
            Expectation::IdentifierAfterComma,
            Some(kw("integer")),
            Some(Token::Symbol(';'))
        ))
    );
}

#[test]
fn a_wrong_statement_is_refused_where_it_stands() {
    assert_eq!(
        parse_text("var begin 1 := x; end"),
        Err(failure(
            Expectation::Statement,
            Some(Token::IntegerLiteral(1)),
            Some(Token::IntegerLiteral(1))
        ))
    );
    assert_eq!(
        parse_text("var begin ; end"),
        Err(failure(Expectation::Statement, Some(Token::Symbol(';')), Some(Token::Symbol(';'))))
    );
}

#[test]
fn a_wrong_term() {
    assert_eq!(
        parse_text("var begin x := ; end"),
        Err(failure(Expectation::Term, Some(Token::Symbol(';')), Some(kw("end"))))
    );
    assert_eq!(
        parse_text("var begin x := 1 + ; end"),
        Err(failure(Expectation::Term, Some(Token::Symbol(';')), Some(kw("end"))))
    );
    assert_eq!(
        parse_text("var begin x := a + end"),
        Err(failure(Expectation::Term, Some(kw("end")), Some(Token::EndOfInput)))
    );
    assert_eq!(
        parse_text("var begin writeln(a, ); end"),
        Err(failure(Expectation::Term, Some(Token::Symbol(')')), Some(Token::Symbol(';'))))
    );
}

#[test]
fn a_second_parse_goes_on_where_the_first_stopped() {
    let mut parser = Parser::new(tokenize("var begin end var begin x := 1; end").unwrap());
    assert_eq!(parser.parse(), Ok(body(vec![])));
    assert_eq!(
        parser.parse(),
        Ok(body(vec![Statement::Assignment("x".to_string(), Expression::IntegerLiteral(1))]))
    );
    assert_eq!(
        parser.parse(),
        Err(failure(Expectation::Keyword("var".to_string()), Some(Token::EndOfInput), None))
    );
}
