use minic::ast::{Expression, Program, Statement};
use minic::parser::{token_precedence, Parser, Precedence};
use minic::token::{Lexer, Token};

fn parse(source: &str) -> (Program, Vec<String>) {
    let mut parser = Parser::new(Lexer::new(source));
    let program = parser.parse_program();
    (program, parser.errors)
}

fn parse_clean(source: &str) -> Vec<Statement> {
    let (program, errors) = parse(source);
    assert!(errors.is_empty(), "unexpected errors: {:?}", errors);
    program.statements
}

fn ident(name: &str) -> Expression {
    Expression::Identifier(name.to_string())
}

fn num(value: i64) -> Expression {
    Expression::Integer(value)
}

fn infix(left: Expression, operator: Token, right: Expression) -> Expression {
    Expression::Infix { left: Box::new(left), operator, right: Box::new(right) }
}

fn call(function: Expression, arguments: Vec<Expression>) -> Expression {
    Expression::Call { function: Box::new(function), arguments }
}

#[test]
fn let_statement() {
    assert_eq!(
        parse_clean("int x = 5;"),
        vec![Statement::Let { name: "x".to_string(), value: num(5) }]
    );
    assert_eq!(
        parse_clean("int x = 5"),
        vec![Statement::Let { name: "x".to_string(), value: num(5) }]
    );
}

#[test]
fn return_statement() {
    assert_eq!(parse_clean("return x;"), vec![Statement::Return(ident("x"))]);
}

#[test]
fn expression_statements() {
    assert_eq!(
        parse_clean("x; \"s\"; 7"),
        vec![
            Statement::Expression(ident("x")),
            Statement::Expression(Expression::String("s".to_string())),
            Statement::Expression(num(7)),
        ]
    );
}

#[test]
fn product_binds_tighter_than_sum() {
    assert_eq!(
        parse_clean("5 + 3 * 2"),
        vec![Statement::Expression(infix(
            num(5),
            Token::Plus,
            infix(num(3), Token::Asterisk, num(2))
        ))]
    );
    assert_eq!(
        parse_clean("5 * 3 + 2"),
        vec![Statement::Expression(infix(
            infix(num(5), Token::Asterisk, num(3)),
            Token::Plus,
            num(2)
        ))]
    );
}

#[test]
fn parentheses_group() {
    assert_eq!(
        parse_clean("(5 + 3) * 2"),
        vec![Statement::Expression(infix(
            infix(num(5), Token::Plus, num(3)),
            Token::Asterisk,
            num(2)
        ))]
    );
}

#[test]
fn equal_precedence_associates_to_the_left() {
    assert_eq!(
        parse_clean("a - b - c"),
        vec![Statement::Expression(infix(
            infix(ident("a"), Token::Minus, ident("b")),
            Token::Minus,
            ident("c")
        ))]
    );
}

#[test]
fn comparison_and_equality_levels() {
    assert_eq!(
        parse_clean("a < b == c > d"),
        vec![Statement::Expression(infix(
            infix(ident("a"), Token::LessThan, ident("b")),
            Token::Equal,
            infix(ident("c"), Token::GreaterThan, ident("d"))
        ))]
    );
}

#[test]
fn unary_minus_binds_tighter_than_product() {
    assert_eq!(
        parse_clean("-a * b"),
        vec![Statement::Expression(infix(
            Expression::Prefix { operator: Token::Minus, right: Box::new(ident("a")) },
            Token::Asterisk,
            ident("b")
        ))]
    );
}

#[test]
fn call_binds_tightest() {
    assert_eq!(
        parse_clean("-f(1)"),
        vec![Statement::Expression(Expression::Prefix {
            operator: Token::Minus,
            right: Box::new(call(ident("f"), vec![num(1)])),
        })]
    );
    assert_eq!(
        parse_clean("f(1) + g()"),
        vec![Statement::Expression(infix(
            call(ident("f"), vec![num(1)]),
            Token::Plus,
            call(ident("g"), vec![])
        ))]
    );
}

#[test]
fn call_arguments() {
    assert_eq!(
        parse_clean("add(2, 3 * 4, g(x))"),
        vec![Statement::Expression(call(
            ident("add"),
            vec![num(2), infix(num(3), Token::Asterisk, num(4)), call(ident("g"), vec![ident("x")])]
        ))]
    );
    assert_eq!(
        parse_clean("f()(1)"),
        vec![Statement::Expression(call(call(ident("f"), vec![]), vec![num(1)]))]
    );
}

#[test]
fn function_declaration() {
    assert_eq!(
        parse_clean("int add(int a, int b) { return a + b; }"),
        vec![Statement::Function {
            name: "add".to_string(),
            params: vec!["a".to_string(), "b".to_string()],
            body: vec![Statement::Return(infix(ident("a"), Token::Plus, ident("b")))],
        }]
    );
    assert_eq!(
        parse_clean("int main() { }"),
        vec![Statement::Function { name: "main".to_string(), params: vec![], body: vec![] }]
    );
}

#[test]
fn if_with_and_without_else() {
    assert_eq!(
        parse_clean("if (x > 10) { return x; }"),
        vec![Statement::If {
            condition: infix(ident("x"), Token::GreaterThan, num(10)),
            consequence: vec![Statement::Return(ident("x"))],
            alternative: None,
        }]
    );
    assert_eq!(
        parse_clean("if (x) { 1 } else { 2 }"),
        vec![Statement::If {
            condition: ident("x"),
            consequence: vec![Statement::Expression(num(1))],
            alternative: Some(vec![Statement::Expression(num(2))]),
        }]
    );
}

#[test]
fn while_statement() {
    assert_eq!(
        parse_clean("while (i < 3) { int i = i + 1; }"),
        vec![Statement::While {
            condition: infix(ident("i"), Token::LessThan, num(3)),
            body: vec![Statement::Let {
                name: "i".to_string(),
                value: infix(ident("i"), Token::Plus, num(1)),
            }],
        }]
    );
}

#[test]
fn nested_blocks() {
    assert_eq!(
        parse_clean("{ 1; { 2; } 3 }"),
        vec![Statement::Block(vec![
            Statement::Expression(num(1)),
            Statement::Block(vec![Statement::Expression(num(2))]),
            Statement::Expression(num(3)),
        ])]
    );
}

#[test]
fn block_open_at_end_of_input() {
    assert_eq!(parse_clean("{ 1;"), vec![Statement::Block(vec![Statement::Expression(num(1))])]);
    assert_eq!(parse_clean("{"), vec![Statement::Block(vec![])]);
}

#[test]
fn missing_parenthesis_is_recorded() {
    let (program, errors) = parse("(1 + 2; 7");
    assert_eq!(errors, vec!["Expected RParen, got Semicolon".to_string()]);
    assert_eq!(program.statements, vec![Statement::Expression(num(7))]);
}

#[test]
fn messages_name_the_token_found() {
    let (_, errors) = parse("if x");
    assert_eq!(errors, vec!["Expected LParen, got Identifier(\"x\")".to_string()]);
    let (_, errors) = parse("while (1) 2");
    assert_eq!(errors, vec!["Expected LBrace, got Integer(2)".to_string()]);
    let (_, errors) = parse("int x \"s\"");
    assert_eq!(errors, vec!["Expected Assign, got String(\"s\")".to_string()]);
    let (_, errors) = parse("f(1");
    assert_eq!(errors, vec!["Expected RParen, got EOF".to_string()]);
}

#[test]
fn several_errors_in_one_pass() {
    let (program, errors) = parse("if x; int y 3; (4");
    assert_eq!(
        errors,
        vec![
            "Expected LParen, got Identifier(\"x\")".to_string(),
            "Expected Assign, got Integer(3)".to_string(),
            "Expected RParen, got EOF".to_string(),
        ]
    );
    assert_eq!(
        program.statements,
        vec![Statement::Expression(ident("x")), Statement::Expression(num(3))]
    );
}

#[test]
fn failed_statement_is_dropped_without_message() {
    let (program, errors) = parse("int 5; x");
    assert!(errors.is_empty());
    assert_eq!(
        program.statements,
        vec![Statement::Expression(num(5)), Statement::Expression(ident("x"))]
    );
    let (program, errors) = parse("} 1");
    assert!(errors.is_empty());
    assert_eq!(program.statements, vec![Statement::Expression(num(1))]);
}

#[test]
fn bare_equals_sign_separates_statements() {
    let (program, errors) = parse("i = i + 1;");
    assert!(errors.is_empty());
    assert_eq!(
        program.statements,
        vec![
            Statement::Expression(ident("i")),
            Statement::Expression(infix(ident("i"), Token::Plus, num(1))),
        ]
    );
}

#[test]
fn bad_parameter_list_drops_the_function() {
    let (program, errors) = parse("int f(a) { } 1");
    assert!(errors.is_empty());
    assert_eq!(
        program.statements,
        vec![Statement::Block(vec![]), Statement::Expression(num(1))]
    );
    let (program, errors) = parse("int f(int a int b) { }");
    assert_eq!(
        errors,
        vec!["Expected RParen, got Int".to_string(), "Expected Assign, got RParen".to_string()]
    );
    assert_eq!(program.statements, vec![Statement::Block(vec![])]);
}

#[test]
fn else_without_brace() {
    let (program, errors) = parse("if (1) { 2 } else 3");
    assert_eq!(errors, vec!["Expected LBrace, got Integer(3)".to_string()]);
    assert_eq!(program.statements, vec![Statement::Expression(num(3))]);
}

#[test]
fn next_token_moves_the_cursor() {
    let mut parser = Parser::new(Lexer::new("1 2 3"));
    parser.next_token();
    let program = parser.parse_program();
    assert_eq!(
        program.statements,
        vec![Statement::Expression(num(2)), Statement::Expression(num(3))]
    );
}

#[test]
fn parse_expression_stops_at_lower_precedence() {
    let mut parser = Parser::new(Lexer::new("1 * 2 + 3"));
    let product = parser.parse_expression(Precedence::Sum);
    assert_eq!(product, Some(infix(num(1), Token::Asterisk, num(2))));
    let mut parser = Parser::new(Lexer::new("1 + 2 * 3"));
    let first = parser.parse_expression(Precedence::Product);
    assert_eq!(first, Some(num(1)));
}

#[test]
fn expect_peek_moves_or_records() {
    let mut parser = Parser::new(Lexer::new("a ) b"));
    assert!(parser.expect_peek(Token::RParen));
    assert!(parser.errors.is_empty());
    assert!(!parser.expect_peek(Token::Comma));
    assert_eq!(parser.errors, vec!["Expected Comma, got Identifier(\"b\")".to_string()]);
}

#[test]
fn precedence_of_tokens() {
    assert_eq!(token_precedence(&Token::Equal), Precedence::Equals);
    assert_eq!(token_precedence(&Token::NotEqual), Precedence::Equals);
    assert_eq!(token_precedence(&Token::LessThan), Precedence::LessGreater);
    assert_eq!(token_precedence(&Token::GreaterThan), Precedence::LessGreater);
    assert_eq!(token_precedence(&Token::Plus), Precedence::Sum);
    assert_eq!(token_precedence(&Token::Minus), Precedence::Sum);
    assert_eq!(token_precedence(&Token::Asterisk), Precedence::Product);
    assert_eq!(token_precedence(&Token::Slash), Precedence::Product);
    assert_eq!(token_precedence(&Token::LParen), Precedence::Call);
    assert_eq!(token_precedence(&Token::Semicolon), Precedence::Lowest);
    assert_eq!(token_precedence(&Token::Assign), Precedence::Lowest);
    assert!(Precedence::Lowest.rank() < Precedence::Equals.rank());
    assert!(Precedence::Equals.rank() < Precedence::LessGreater.rank());
    assert!(Precedence::LessGreater.rank() < Precedence::Sum.rank());
    assert!(Precedence::Sum.rank() < Precedence::Product.rank());
    assert!(Precedence::Product.rank() < Precedence::Prefix.rank());
    assert!(Precedence::Prefix.rank() < Precedence::Call.rank());
}

#[test]
fn syntax_trees_clone_and_compare() {
    let statements = parse_clean("int f(int a) { if (a) { return -a; } else { return f(a, 1); } } while (1) { \"s\" }");
    let copy: Vec<Statement> = statements.iter().map(|s| s.clone()).collect();
    assert_eq!(copy, statements);
    assert_ne!(parse_clean("1 + 2"), parse_clean("1 - 2"));
    assert_ne!(parse_clean("f(1)"), parse_clean("f(1, 2)"));
    let program = Program { statements };
    assert!(program.clone() == program);
}
