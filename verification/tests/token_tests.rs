use minic::token::{Lexer, Token};

#[test]
fn test_next_token() {
    let input = "int x = 5; if (x > 10) { return x; }";
    let mut lexer = Lexer::new(input);

    let tests = vec![
        Token::Int,
        Token::Identifier("x".to_string()),
        Token::Assign,
        Token::Integer(5),
        Token::Semicolon,
        Token::If,
        Token::LParen,
        Token::Identifier("x".to_string()),
        Token::GreaterThan,
        Token::Integer(10),
        Token::RParen,
        Token::LBrace,
        Token::Return,
        Token::Identifier("x".to_string()),
        Token::Semicolon,
        Token::RBrace,
        Token::EOF,
    ];

    for expected in tests {
        let tok = lexer.next_token();
        assert_eq!(tok, expected);
    }
}

fn tokens(input: &str) -> Vec<Token> {
    let mut lexer = Lexer::new(input);
    let mut all = Vec::new();
    loop {
        let token = lexer.next_token();
        let done = token == Token::EOF;
        all.push(token);
        if done {
            return all;
        }
    }
}

#[test]
fn end_of_input_repeats() {
    let mut lexer = Lexer::new("  x  ");
    assert_eq!(lexer.next_token(), Token::Identifier("x".to_string()));
    assert_eq!(lexer.next_token(), Token::EOF);
    assert_eq!(lexer.next_token(), Token::EOF);
    assert_eq!(lexer.next_token(), Token::EOF);
}

#[test]
fn empty_input_is_end_of_input() {
    assert_eq!(tokens(""), vec![Token::EOF]);
    assert_eq!(tokens(" \t\r\n"), vec![Token::EOF]);
}

#[test]
fn operators_and_delimiters() {
    assert_eq!(
        tokens("+ - * / = == != < > ( ) { } ; ,"),
        vec![
            Token::Plus,
            Token::Minus,
            Token::Asterisk,
            Token::Slash,
            Token::Assign,
            Token::Equal,
            Token::NotEqual,
            Token::LessThan,
            Token::GreaterThan,
            Token::LParen,
            Token::RParen,
            Token::LBrace,
            Token::RBrace,
            Token::Semicolon,
            Token::Comma,
            Token::EOF,
        ]
    );
}

#[test]
fn equals_signs_pair_from_the_left() {
    assert_eq!(tokens("==="), vec![Token::Equal, Token::Assign, Token::EOF]);
    assert_eq!(tokens("!=="), vec![Token::NotEqual, Token::Assign, Token::EOF]);
}

#[test]
fn bare_bang_is_illegal() {
    assert_eq!(
        tokens("!x"),
        vec![Token::Illegal("!".to_string()), Token::Identifier("x".to_string()), Token::EOF]
    );
    assert_eq!(tokens("!"), vec![Token::Illegal("!".to_string()), Token::EOF]);
}

#[test]
fn unknown_character_is_illegal() {
    assert_eq!(tokens("@"), vec![Token::Illegal("@".to_string()), Token::EOF]);
    assert_eq!(tokens("é"), vec![Token::Illegal("é".to_string()), Token::EOF]);
}

#[test]
fn keywords_and_identifiers() {
    assert_eq!(
        tokens("int return if else while integer _if x1 If"),
        vec![
            Token::Int,
            Token::Return,
            Token::If,
            Token::Else,
            Token::While,
            Token::Identifier("integer".to_string()),
            Token::Identifier("_if".to_string()),
            Token::Identifier("x1".to_string()),
            Token::Identifier("If".to_string()),
            Token::EOF,
        ]
    );
}

#[test]
fn digits_then_letters_are_two_tokens() {
    assert_eq!(
        tokens("12ab"),
        vec![Token::Integer(12), Token::Identifier("ab".to_string()), Token::EOF]
    );
}

#[test]
fn integer_literals() {
    assert_eq!(tokens("0"), vec![Token::Integer(0), Token::EOF]);
    assert_eq!(tokens("007"), vec![Token::Integer(7), Token::EOF]);
    assert_eq!(
        tokens("9223372036854775807"),
        vec![Token::Integer(9223372036854775807), Token::EOF]
    );
}

#[test]
fn integer_literal_out_of_range_is_illegal() {
    assert_eq!(
        tokens("9223372036854775808"),
        vec![Token::Illegal("9223372036854775808".to_string()), Token::EOF]
    );
    assert_eq!(
        tokens("123456789012345678901234567890 1"),
        vec![
            Token::Illegal("123456789012345678901234567890".to_string()),
            Token::Integer(1),
            Token::EOF,
        ]
    );
}

#[test]
fn line_comments_are_skipped() {
    assert_eq!(
        tokens("1 // one\n2 // two"),
        vec![Token::Integer(1), Token::Integer(2), Token::EOF]
    );
    assert_eq!(tokens("// only a comment"), vec![Token::EOF]);
    assert_eq!(tokens("//\n//\nx"), vec![Token::Identifier("x".to_string()), Token::EOF]);
    assert_eq!(tokens("a / b"), vec![
        Token::Identifier("a".to_string()),
        Token::Slash,
        Token::Identifier("b".to_string()),
        Token::EOF,
    ]);
}

#[test]
fn string_literals_and_escapes() {
    assert_eq!(tokens("\"hello\""), vec![Token::String("hello".to_string()), Token::EOF]);
    assert_eq!(tokens("\"\""), vec![Token::String("".to_string()), Token::EOF]);
    assert_eq!(
        tokens(r#""a\nb\tc\rd\"e\\f""#),
        vec![Token::String("a\nb\tc\rd\"e\\f".to_string()), Token::EOF]
    );
}

#[test]
fn unknown_escape_keeps_the_backslash() {
    assert_eq!(tokens(r#""a\qb""#), vec![Token::String("a\\qb".to_string()), Token::EOF]);
}

#[test]
fn unterminated_string_is_illegal() {
    assert_eq!(
        tokens("\"abc"),
        vec![Token::Illegal("Unterminated string".to_string()), Token::EOF]
    );
    assert_eq!(
        tokens("\"abc\\"),
        vec![Token::Illegal("Unterminated string".to_string()), Token::EOF]
    );
    assert_eq!(
        tokens("\"abc\\\""),
        vec![Token::Illegal("Unterminated string".to_string()), Token::EOF]
    );
}

#[test]
fn unicode_white_space_is_skipped() {
    assert_eq!(
        tokens("a\u{a0}b\u{2003}c\u{3000}d"),
        vec![
            Token::Identifier("a".to_string()),
            Token::Identifier("b".to_string()),
            Token::Identifier("c".to_string()),
            Token::Identifier("d".to_string()),
            Token::EOF,
        ]
    );
}

#[test]
fn skip_whitespace_stops_at_the_first_other_character() {
    let mut lexer = Lexer::new("   \n\t x y");
    lexer.skip_whitespace();
    assert_eq!(lexer.next_token(), Token::Identifier("x".to_string()));
}

#[test]
fn token_debug_text() {
    assert_eq!(Token::RParen.debug_string(), "RParen");
    assert_eq!(Token::EOF.debug_string(), "EOF");
    assert_eq!(Token::Integer(-5).debug_string(), "Integer(-5)");
    assert_eq!(Token::Identifier("x".to_string()).debug_string(), "Identifier(\"x\")");
    assert_eq!(Token::String("a\"b\n".to_string()).debug_string(), "String(\"a\\\"b\\n\")");
    assert_eq!(Token::Illegal("!".to_string()).debug_string(), "Illegal(\"!\")");
    for token in tokens("int x = 5; if (x > 10) { return \"s\"; } else while ! == != < + - * / ,") {
        assert_eq!(token.debug_string(), format!("{:?}", token));
    }
}

#[test]
fn token_clone_and_equality() {
    let token = Token::Identifier("name".to_string());
    assert_eq!(token.clone(), token);
    assert_ne!(token, Token::Identifier("other".to_string()));
    assert_ne!(token, Token::String("name".to_string()));
    assert_ne!(Token::Integer(1), Token::Integer(2));
}
