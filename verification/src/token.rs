//! Tokens and the tokenizer.
//!
//! The tokenizer is specified by `lex`, a function from a text and an offset
//! to the token that starts there and the offset after it. `Lexer` walks a
//! text and produces the tokens of `lex` one call at a time.

use crate::text::slice_to_string;
use crate::text::char_to_string;
use crate::text::debug_text;
use crate::text::enclosed;
use crate::text::decimal;
use crate::text::integer_to_string;
use crate::text::str_debug;
use vstd::prelude::*;
use vstd::std_specs::cmp::PartialEqSpecImpl;

verus! {

/// A lexical token.
#[derive(Debug)]
pub enum Token {
    // Keywords
    Int,
    Return,
    If,
    Else,
    While,
    // Identifiers and literals
    Identifier(String),
    Integer(i64),
    String(String),
    // Operators
    Plus,
    Minus,
    Asterisk,
    Slash,
    Assign,
    Equal,
    NotEqual,
    LessThan,
    GreaterThan,
    // Delimiters
    LParen,
    RParen,
    LBrace,
    RBrace,
    Semicolon,
    Comma,
    /// End of input.
    EOF,
    /// Input that is no token; carries the offending text or a message.
    Illegal(String),
}

/// The mathematical value of a `Token`: the same variants over character
/// sequences.
pub enum TokenView {
    Int,
    Return,
    If,
    Else,
    While,
    Identifier(Seq<char>),
    Integer(i64),
    String(Seq<char>),
    Plus,
    Minus,
    Asterisk,
    Slash,
    Assign,
    Equal,
    NotEqual,
    LessThan,
    GreaterThan,
    LParen,
    RParen,
    LBrace,
    RBrace,
    Semicolon,
    Comma,
    EOF,
    Illegal(Seq<char>),
}

impl View for Token {
    type V = TokenView;

    open spec fn view(&self) -> TokenView {
        match self {
            Token::Int => TokenView::Int,
            Token::Return => TokenView::Return,
            Token::If => TokenView::If,
            Token::Else => TokenView::Else,
            Token::While => TokenView::While,
            Token::Identifier(s) => TokenView::Identifier(s@),
            Token::Integer(i) => TokenView::Integer(*i),
            Token::String(s) => TokenView::String(s@),
            Token::Plus => TokenView::Plus,
            Token::Minus => TokenView::Minus,
            Token::Asterisk => TokenView::Asterisk,
            Token::Slash => TokenView::Slash,
            Token::Assign => TokenView::Assign,
            Token::Equal => TokenView::Equal,
            Token::NotEqual => TokenView::NotEqual,
            Token::LessThan => TokenView::LessThan,
            Token::GreaterThan => TokenView::GreaterThan,
            Token::LParen => TokenView::LParen,
            Token::RParen => TokenView::RParen,
            Token::LBrace => TokenView::LBrace,
            Token::RBrace => TokenView::RBrace,
            Token::Semicolon => TokenView::Semicolon,
            Token::Comma => TokenView::Comma,
            Token::EOF => TokenView::EOF,
            Token::Illegal(s) => TokenView::Illegal(s@),
        }
    }
}

impl PartialEq for Token {
    /// Two tokens are equal when they are the same variant with the same
    /// payload.
    fn eq(&self, other: &Token) -> (r: bool) {
        match (self, other) {
            (Token::Int, Token::Int) => true,
            (Token::Return, Token::Return) => true,
            (Token::If, Token::If) => true,
            (Token::Else, Token::Else) => true,
            (Token::While, Token::While) => true,
            (Token::Identifier(a), Token::Identifier(b)) => *a == *b,
            (Token::Integer(a), Token::Integer(b)) => *a == *b,
            (Token::String(a), Token::String(b)) => *a == *b,
            (Token::Plus, Token::Plus) => true,
            (Token::Minus, Token::Minus) => true,
            (Token::Asterisk, Token::Asterisk) => true,
            (Token::Slash, Token::Slash) => true,
            (Token::Assign, Token::Assign) => true,
            (Token::Equal, Token::Equal) => true,
            (Token::NotEqual, Token::NotEqual) => true,
            (Token::LessThan, Token::LessThan) => true,
            (Token::GreaterThan, Token::GreaterThan) => true,
            (Token::LParen, Token::LParen) => true,
            (Token::RParen, Token::RParen) => true,
            (Token::LBrace, Token::LBrace) => true,
            (Token::RBrace, Token::RBrace) => true,
            (Token::Semicolon, Token::Semicolon) => true,
            (Token::Comma, Token::Comma) => true,
            (Token::EOF, Token::EOF) => true,
            (Token::Illegal(a), Token::Illegal(b)) => *a == *b,
            _ => false,
        }
    }
}

impl PartialEqSpecImpl for Token {
    open spec fn obeys_eq_spec() -> bool {
        true
    }

    open spec fn eq_spec(&self, other: &Token) -> bool {
        self@ == other@
    }
}

impl Clone for Token {
    fn clone(&self) -> (r: Token)
        ensures
            r@ == self@,
    {
        match self {
            Token::Int => Token::Int,
            Token::Return => Token::Return,
            Token::If => Token::If,
            Token::Else => Token::Else,
            Token::While => Token::While,
            Token::Identifier(s) => Token::Identifier(s.clone()),
            Token::Integer(i) => Token::Integer(*i),
            Token::String(s) => Token::String(s.clone()),
            Token::Plus => Token::Plus,
            Token::Minus => Token::Minus,
            Token::Asterisk => Token::Asterisk,
            Token::Slash => Token::Slash,
            Token::Assign => Token::Assign,
            Token::Equal => Token::Equal,
            Token::NotEqual => Token::NotEqual,
            Token::LessThan => Token::LessThan,
            Token::GreaterThan => Token::GreaterThan,
            Token::LParen => Token::LParen,
            Token::RParen => Token::RParen,
            Token::LBrace => Token::LBrace,
            Token::RBrace => Token::RBrace,
            Token::Semicolon => Token::Semicolon,
            Token::Comma => Token::Comma,
            Token::EOF => Token::EOF,
            Token::Illegal(s) => Token::Illegal(s.clone()),
        }
    }
}

/// The text that names a token in messages: the variant's name, with the
/// payload in parentheses where there is one, strings quoted and escaped.
pub open spec fn token_debug(t: TokenView) -> Seq<char> {
    match t {
        TokenView::Int => "Int"@,
        TokenView::Return => "Return"@,
        TokenView::If => "If"@,
        TokenView::Else => "Else"@,
        TokenView::While => "While"@,
        TokenView::Identifier(s) => "Identifier("@ + debug_text(s) + ")"@,
        TokenView::Integer(i) => "Integer("@ + decimal(i as int) + ")"@,
        TokenView::String(s) => "String("@ + debug_text(s) + ")"@,
        TokenView::Plus => "Plus"@,
        TokenView::Minus => "Minus"@,
        TokenView::Asterisk => "Asterisk"@,
        TokenView::Slash => "Slash"@,
        TokenView::Assign => "Assign"@,
        TokenView::Equal => "Equal"@,
        TokenView::NotEqual => "NotEqual"@,
        TokenView::LessThan => "LessThan"@,
        TokenView::GreaterThan => "GreaterThan"@,
        TokenView::LParen => "LParen"@,
        TokenView::RParen => "RParen"@,
        TokenView::LBrace => "LBrace"@,
        TokenView::RBrace => "RBrace"@,
        TokenView::Semicolon => "Semicolon"@,
        TokenView::Comma => "Comma"@,
        TokenView::EOF => "EOF"@,
        TokenView::Illegal(s) => "Illegal("@ + debug_text(s) + ")"@,
    }
}

impl Token {
    /// The text that names this token in messages.
    pub fn debug_string(&self) -> (r: String)
        ensures
            r@ == token_debug(self@),
    {
        match self {
            Token::Int => String::from_str("Int"),
            Token::Return => String::from_str("Return"),
            Token::If => String::from_str("If"),
            Token::Else => String::from_str("Else"),
            Token::While => String::from_str("While"),
            Token::Identifier(s) => enclosed("Identifier(", str_debug(s.as_str()).as_str(), ")"),
            Token::Integer(i) => enclosed("Integer(", integer_to_string(*i).as_str(), ")"),
            Token::String(s) => enclosed("String(", str_debug(s.as_str()).as_str(), ")"),
            Token::Plus => String::from_str("Plus"),
            Token::Minus => String::from_str("Minus"),
            Token::Asterisk => String::from_str("Asterisk"),
            Token::Slash => String::from_str("Slash"),
            Token::Assign => String::from_str("Assign"),
            Token::Equal => String::from_str("Equal"),
            Token::NotEqual => String::from_str("NotEqual"),
            Token::LessThan => String::from_str("LessThan"),
            Token::GreaterThan => String::from_str("GreaterThan"),
            Token::LParen => String::from_str("LParen"),
            Token::RParen => String::from_str("RParen"),
            Token::LBrace => String::from_str("LBrace"),
            Token::RBrace => String::from_str("RBrace"),
            Token::Semicolon => String::from_str("Semicolon"),
            Token::Comma => String::from_str("Comma"),
            Token::EOF => String::from_str("EOF"),
            Token::Illegal(s) => enclosed("Illegal(", str_debug(s.as_str()).as_str(), ")"),
        }
    }
}

// ---------------------------------------------------------------------------
// Character classes
// ---------------------------------------------------------------------------

/// White space: the characters with the Unicode property `White_Space`.
pub open spec fn is_space(c: char) -> bool {
    ||| ('\u{9}' <= c && c <= '\u{d}')
    ||| c == ' '
    ||| c == '\u{85}'
    ||| c == '\u{a0}'
    ||| c == '\u{1680}'
    ||| ('\u{2000}' <= c && c <= '\u{200a}')
    ||| c == '\u{2028}'
    ||| c == '\u{2029}'
    ||| c == '\u{202f}'
    ||| c == '\u{205f}'
    ||| c == '\u{3000}'
}

/// An ASCII decimal digit.
pub open spec fn is_digit(c: char) -> bool {
    '0' <= c && c <= '9'
}

/// An ASCII letter.
pub open spec fn is_letter(c: char) -> bool {
    ('a' <= c && c <= 'z') || ('A' <= c && c <= 'Z')
}

/// A character that may start an identifier.
pub open spec fn is_word_start(c: char) -> bool {
    is_letter(c) || c == '_'
}

/// A character that may continue an identifier.
pub open spec fn is_word_part(c: char) -> bool {
    is_letter(c) || is_digit(c) || c == '_'
}

/// The value of a decimal digit.
pub open spec fn digit_value(c: char) -> nat {
    if c == '0' {
        0
    } else if c == '1' {
        1
    } else if c == '2' {
        2
    } else if c == '3' {
        3
    } else if c == '4' {
        4
    } else if c == '5' {
        5
    } else if c == '6' {
        6
    } else if c == '7' {
        7
    } else if c == '8' {
        8
    } else {
        9
    }
}

fn space(c: char) -> (r: bool)
    ensures
        r == is_space(c),
{
    ('\u{9}' <= c && c <= '\u{d}') || c == ' ' || c == '\u{85}' || c == '\u{a0}' || c
        == '\u{1680}' || ('\u{2000}' <= c && c <= '\u{200a}') || c == '\u{2028}' || c
        == '\u{2029}' || c == '\u{202f}' || c == '\u{205f}' || c == '\u{3000}'
}

fn digit(c: char) -> (r: bool)
    ensures
        r == is_digit(c),
{
    '0' <= c && c <= '9'
}

fn word_start(c: char) -> (r: bool)
    ensures
        r == is_word_start(c),
{
    ('a' <= c && c <= 'z') || ('A' <= c && c <= 'Z') || c == '_'
}

fn word_part(c: char) -> (r: bool)
    ensures
        r == is_word_part(c),
{
    ('a' <= c && c <= 'z') || ('A' <= c && c <= 'Z') || ('0' <= c && c <= '9') || c == '_'
}

fn value_of_digit(c: char) -> (r: i64)
    requires
        is_digit(c),
    ensures
        r == digit_value(c),
        0 <= r <= 9,
{
    if c == '0' {
        0
    } else if c == '1' {
        1
    } else if c == '2' {
        2
    } else if c == '3' {
        3
    } else if c == '4' {
        4
    } else if c == '5' {
        5
    } else if c == '6' {
        6
    } else if c == '7' {
        7
    } else if c == '8' {
        8
    } else {
        9
    }
}

// ---------------------------------------------------------------------------
// What the tokenizer computes
// ---------------------------------------------------------------------------

/// The first offset at or after `i` that holds no white space.
pub open spec fn spaces_end(s: Seq<char>, i: int) -> int
    decreases s.len() - i,
{
    if 0 <= i < s.len() && is_space(s[i]) {
        spaces_end(s, i + 1)
    } else {
        i
    }
}

/// The first offset at or after `i` that holds no digit.
pub open spec fn digits_end(s: Seq<char>, i: int) -> int
    decreases s.len() - i,
{
    if 0 <= i < s.len() && is_digit(s[i]) {
        digits_end(s, i + 1)
    } else {
        i
    }
}

/// The first offset at or after `i` that holds no identifier character.
pub open spec fn word_end(s: Seq<char>, i: int) -> int
    decreases s.len() - i,
{
    if 0 <= i < s.len() && is_word_part(s[i]) {
        word_end(s, i + 1)
    } else {
        i
    }
}

/// The offset of the first newline at or after `i`, or the end of the text.
pub open spec fn line_end(s: Seq<char>, i: int) -> int
    decreases s.len() - i,
{
    if 0 <= i < s.len() && s[i] != '\n' {
        line_end(s, i + 1)
    } else {
        i
    }
}

/// The character that the escape letter `c` stands for after a backslash, if
/// it is one of the known escapes.
pub open spec fn escape_of(c: char) -> Option<char> {
    if c == 'n' {
        Some('\n')
    } else if c == 'r' {
        Some('\r')
    } else if c == 't' {
        Some('\t')
    } else if c == '"' {
        Some('"')
    } else if c == '\\' {
        Some('\\')
    } else {
        None
    }
}

/// Whether a known escape sequence starts at offset `i`.
pub open spec fn escape_at(s: Seq<char>, i: int) -> bool {
    0 <= i && i + 1 < s.len() && s[i] == '\\' && escape_of(s[i + 1]) is Some
}

/// Inside a string literal: the character that the item at offset `i`
/// contributes. A known escape contributes what it stands for; any other
/// character, a backslash before an unknown letter included, contributes
/// itself.
pub open spec fn string_item(s: Seq<char>, i: int) -> char {
    if escape_at(s, i) {
        escape_of(s[i + 1])->0
    } else {
        s[i]
    }
}

/// Inside a string literal: the offset after the item at offset `i`.
pub open spec fn string_step(s: Seq<char>, i: int) -> int {
    if escape_at(s, i) {
        i + 2
    } else {
        i + 1
    }
}

/// Inside a string literal whose body starts at `i`: the offset of the
/// closing quote, or the end of the text when the literal is not closed.
pub open spec fn string_end(s: Seq<char>, i: int) -> int
    decreases s.len() - i,
{
    if 0 <= i < s.len() && s[i] != '"' {
        string_end(s, string_step(s, i))
    } else {
        i
    }
}

/// Inside a string literal whose body starts at `i`: the text of the body,
/// escapes resolved.
pub open spec fn string_text(s: Seq<char>, i: int) -> Seq<char>
    decreases s.len() - i,
{
    if 0 <= i < s.len() && s[i] != '"' {
        seq![string_item(s, i)] + string_text(s, string_step(s, i))
    } else {
        Seq::empty()
    }
}

/// The number that a sequence of decimal digits writes.
pub open spec fn digits_value(d: Seq<char>) -> nat
    decreases d.len(),
{
    if d.len() == 0 {
        0
    } else {
        digits_value(d.drop_last()) * 10 + digit_value(d.last())
    }
}

/// The token for a run of digits: the integer it writes where that fits in
/// 64 bits, else an illegal token that carries the digits.
pub open spec fn number_token(d: Seq<char>) -> TokenView {
    if digits_value(d) <= i64::MAX {
        TokenView::Integer(digits_value(d) as i64)
    } else {
        TokenView::Illegal(d)
    }
}

/// The token for a word: a keyword, or an identifier.
pub open spec fn word_token(w: Seq<char>) -> TokenView {
    if w == "int"@ {
        TokenView::Int
    } else if w == "return"@ {
        TokenView::Return
    } else if w == "if"@ {
        TokenView::If
    } else if w == "else"@ {
        TokenView::Else
    } else if w == "while"@ {
        TokenView::While
    } else {
        TokenView::Identifier(w)
    }
}

/// The text carried by the illegal token for a string literal that the input
/// ends before closing.
pub open spec fn unterminated() -> Seq<char> {
    "Unterminated string"@
}

/// The token for a one-character operator or delimiter, if `c` is one.
pub open spec fn symbol_token(c: char) -> Option<TokenView> {
    if c == '+' {
        Some(TokenView::Plus)
    } else if c == '-' {
        Some(TokenView::Minus)
    } else if c == '*' {
        Some(TokenView::Asterisk)
    } else if c == '<' {
        Some(TokenView::LessThan)
    } else if c == '>' {
        Some(TokenView::GreaterThan)
    } else if c == '(' {
        Some(TokenView::LParen)
    } else if c == ')' {
        Some(TokenView::RParen)
    } else if c == '{' {
        Some(TokenView::LBrace)
    } else if c == '}' {
        Some(TokenView::RBrace)
    } else if c == ';' {
        Some(TokenView::Semicolon)
    } else if c == ',' {
        Some(TokenView::Comma)
    } else {
        None
    }
}

/// `spaces_end` stays between its start and the end of the text.
pub proof fn lemma_spaces_end_bounds(s: Seq<char>, i: int)
    requires
        0 <= i <= s.len(),
    ensures
        i <= spaces_end(s, i) <= s.len(),
        spaces_end(s, i) < s.len() ==> !is_space(s[spaces_end(s, i)]),
    decreases s.len() - i,
{
    if i < s.len() && is_space(s[i]) {
        lemma_spaces_end_bounds(s, i + 1);
    }
}

/// `digits_end` stays between its start and the end of the text.
pub proof fn lemma_digits_end_bounds(s: Seq<char>, i: int)
    requires
        0 <= i <= s.len(),
    ensures
        i <= digits_end(s, i) <= s.len(),
    decreases s.len() - i,
{
    if i < s.len() && is_digit(s[i]) {
        lemma_digits_end_bounds(s, i + 1);
    }
}

/// `word_end` stays between its start and the end of the text.
pub proof fn lemma_word_end_bounds(s: Seq<char>, i: int)
    requires
        0 <= i <= s.len(),
    ensures
        i <= word_end(s, i) <= s.len(),
    decreases s.len() - i,
{
    if i < s.len() && is_word_part(s[i]) {
        lemma_word_end_bounds(s, i + 1);
    }
}

/// `line_end` stays between its start and the end of the text.
pub proof fn lemma_line_end_bounds(s: Seq<char>, i: int)
    requires
        0 <= i <= s.len(),
    ensures
        i <= line_end(s, i) <= s.len(),
    decreases s.len() - i,
{
    if i < s.len() && s[i] != '\n' {
        lemma_line_end_bounds(s, i + 1);
    }
}

/// `string_end` stays between its start and the end of the text.
pub proof fn lemma_string_end_bounds(s: Seq<char>, i: int)
    requires
        0 <= i <= s.len(),
    ensures
        i <= string_end(s, i) <= s.len(),
    decreases s.len() - i,
{
    if i < s.len() && s[i] != '"' {
        lemma_string_end_bounds(s, string_step(s, i));
    }
}

/// A token together with the offset after it.
pub struct Lexed {
    pub token: TokenView,
    pub end: int,
}

/// Whether offset `i` of `s` holds the character `c`.
pub open spec fn holds(s: Seq<char>, i: int, c: char) -> bool {
    0 <= i < s.len() && s[i] == c
}

/// The token that starts at or after offset `pos` of `s`, white space and
/// line comments skipped, and the offset after it. At the end of the text the
/// token is `EOF` and the offset stays at the end.
pub open spec fn lex(s: Seq<char>, pos: int) -> Lexed
    decreases s.len() - pos,
{
    let i = spaces_end(s, pos);
    if !(0 <= pos <= i < s.len()) {
        Lexed { token: TokenView::EOF, end: i }
    } else {
        let c = s[i];
        if c == '=' {
            if holds(s, i + 1, '=') {
                Lexed { token: TokenView::Equal, end: i + 2 }
            } else {
                Lexed { token: TokenView::Assign, end: i + 1 }
            }
        } else if c == '!' {
            if holds(s, i + 1, '=') {
                Lexed { token: TokenView::NotEqual, end: i + 2 }
            } else {
                Lexed { token: TokenView::Illegal(seq![c]), end: i + 1 }
            }
        } else if c == '"' {
            let close = string_end(s, i + 1);
            if close < s.len() {
                Lexed { token: TokenView::String(string_text(s, i + 1)), end: close + 1 }
            } else {
                Lexed { token: TokenView::Illegal(unterminated()), end: close }
            }
        } else if c == '/' {
            if holds(s, i + 1, '/') {
                proof {
                    lemma_spaces_end_bounds(s, pos);
                    lemma_line_end_bounds(s, i + 1);
                }
                lex(s, line_end(s, i + 1))
            } else {
                Lexed { token: TokenView::Slash, end: i + 1 }
            }
        } else if symbol_token(c) is Some {
            Lexed { token: symbol_token(c)->0, end: i + 1 }
        } else if is_digit(c) {
            let j = digits_end(s, i);
            Lexed { token: number_token(s.subrange(i, j)), end: j }
        } else if is_word_start(c) {
            let j = word_end(s, i);
            Lexed { token: word_token(s.subrange(i, j)), end: j }
        } else {
            Lexed { token: TokenView::Illegal(seq![c]), end: i + 1 }
        }
    }
}

/// `lex` moves forward and stays within the text; it yields `EOF` only at
/// the end of the text, and any other token only by consuming characters.
pub proof fn lemma_lex_bounds(s: Seq<char>, pos: int)
    requires
        0 <= pos <= s.len(),
    ensures
        pos <= lex(s, pos).end <= s.len(),
        lex(s, pos).token is EOF ==> lex(s, pos).end == s.len(),
        !(lex(s, pos).token is EOF) ==> pos < lex(s, pos).end,
    decreases s.len() - pos,
{
    lemma_spaces_end_bounds(s, pos);
    let i = spaces_end(s, pos);
    if i < s.len() {
        lemma_string_end_bounds(s, i + 1);
        lemma_digits_end_bounds(s, i + 1);
        lemma_word_end_bounds(s, i + 1);
        if s[i] == '/' && holds(s, i + 1, '/') {
            lemma_line_end_bounds(s, i + 1);
            lemma_lex_bounds(s, line_end(s, i + 1));
        }
    }
}

/// Once the end of the input is signalled, it is signalled ever after: the
/// token after an `EOF` is `EOF` again, and the offset stays where it is.
pub proof fn lemma_end_of_input_repeats(s: Seq<char>, pos: int)
    requires
        0 <= pos <= s.len(),
        lex(s, pos).token is EOF,
    ensures
        lex(s, lex(s, pos).end).token is EOF,
        lex(s, lex(s, pos).end).end == lex(s, pos).end,
{
    lemma_lex_bounds(s, pos);
}

// ---------------------------------------------------------------------------
// The tokenizer
// ---------------------------------------------------------------------------

/// Whether `chars[from..to]` spells `word`.
fn spells(chars: &Vec<char>, from: usize, to: usize, word: &str) -> (r: bool)
    requires
        from <= to <= chars.len(),
    ensures
        r == (chars@.subrange(from as int, to as int) == word@),
{
    let mut i: usize = from;
    let mut same = true;
    for c in it: word.chars()
        invariant
            it.seq() == word@,
            from <= to <= chars.len(),
            same ==> i == from + it.index() && i <= to && forall|k: int|
                0 <= k < it.index() ==> chars@[from + k] == word@[k],
            !same ==> chars@.subrange(from as int, to as int) != word@,
    {
        if same {
            if i < to && chars[i] == c {
                i += 1;
            } else {
                same = false;
                proof {
                    let sub = chars@.subrange(from as int, to as int);
                    if i < to {
                        assert(sub[it.index()] != word@[it.index()]);
                    } else {
                        assert(sub.len() < word@.len());
                    }
                }
            }
        }
    }
    proof {
        let sub = chars@.subrange(from as int, to as int);
        if same && i == to {
            assert(sub =~= word@);
        } else if same {
            assert(sub.len() != word@.len());
        }
    }
    same && i == to
}

fn escape(c: char) -> (r: Option<char>)
    ensures
        r == escape_of(c),
{
    if c == 'n' {
        Some('\n')
    } else if c == 'r' {
        Some('\r')
    } else if c == 't' {
        Some('\t')
    } else if c == '"' {
        Some('"')
    } else if c == '\\' {
        Some('\\')
    } else {
        None
    }
}

fn symbol(c: char) -> (r: Option<Token>)
    ensures
        r is Some == symbol_token(c) is Some,
        r is Some ==> r->0@ == symbol_token(c)->0,
{
    if c == '+' {
        Some(Token::Plus)
    } else if c == '-' {
        Some(Token::Minus)
    } else if c == '*' {
        Some(Token::Asterisk)
    } else if c == '<' {
        Some(Token::LessThan)
    } else if c == '>' {
        Some(Token::GreaterThan)
    } else if c == '(' {
        Some(Token::LParen)
    } else if c == ')' {
        Some(Token::RParen)
    } else if c == '{' {
        Some(Token::LBrace)
    } else if c == '}' {
        Some(Token::RBrace)
    } else if c == ';' {
        Some(Token::Semicolon)
    } else if c == ',' {
        Some(Token::Comma)
    } else {
        None
    }
}

/// A tokenizer over a text: the text and the offset of the next character to
/// read.
pub struct Lexer {
    chars: Vec<char>,
    pos: usize,
}

impl Lexer {
    /// The text being tokenized.
    pub closed spec fn source(&self) -> Seq<char> {
        self.chars@
    }

    /// The offset of the next character to read.
    pub closed spec fn offset(&self) -> int {
        self.pos as int
    }

    /// The offset lies within the text.
    pub open spec fn wf(&self) -> bool {
        0 <= self.offset() <= self.source().len()
    }

    /// A tokenizer at the start of `input`.
    pub fn new(input: &str) -> (lexer: Lexer)
        ensures
            lexer.wf(),
            lexer.source() == input@,
            lexer.offset() == 0,
    {
        Lexer { chars: crate::text::to_chars(input), pos: 0 }
    }

    /// Whether the next character to read is `c`.
    fn at(&self, c: char) -> (r: bool)
        requires
            self.wf(),
        ensures
            r == holds(self.source(), self.offset(), c),
    {
        self.pos < self.chars.len() && self.chars[self.pos] == c
    }

    /// Produces the next token and moves past it. At the end of the text the
    /// token is `EOF`, now and on every later call.
    pub fn next_token(&mut self) -> (token: Token)
        requires
            old(self).wf(),
        ensures
            final(self).wf(),
            final(self).source() == old(self).source(),
            token@ == lex(old(self).source(), old(self).offset()).token,
            final(self).offset() == lex(old(self).source(), old(self).offset()).end,
        decreases old(self).source().len() - old(self).offset(),
    {
        self.skip_whitespace();
        proof {
            lemma_spaces_end_bounds(old(self).source(), old(self).offset());
        }
        if self.pos >= self.chars.len() {
            return Token::EOF;
        }
        let c = self.chars[self.pos];
        self.pos += 1;
        if c == '=' {
            if self.at('=') {
                self.pos += 1;
                Token::Equal
            } else {
                Token::Assign
            }
        } else if c == '!' {
            if self.at('=') {
                self.pos += 1;
                Token::NotEqual
            } else {
                Token::Illegal(char_to_string(c))
            }
        } else if c == '"' {
            self.read_string()
        } else if c == '/' {
            if self.at('/') {
                proof {
                    lemma_line_end_bounds(self.source(), self.offset());
                }
                self.skip_line();
                self.next_token()
            } else {
                Token::Slash
            }
        } else if let Some(token) = symbol(c) {
            token
        } else if digit(c) {
            self.pos -= 1;
            self.read_number()
        } else if word_start(c) {
            self.pos -= 1;
            self.read_word()
        } else {
            Token::Illegal(char_to_string(c))
        }
    }

    /// Moves past white space.
    pub fn skip_whitespace(&mut self)
        requires
            old(self).wf(),
        ensures
            final(self).wf(),
            final(self).source() == old(self).source(),
            final(self).offset() == spaces_end(old(self).source(), old(self).offset()),
    {
        while self.pos < self.chars.len() && space(self.chars[self.pos])
            invariant
                self.wf(),
                self.chars == old(self).chars,
                spaces_end(self.chars@, self.pos as int) == spaces_end(
                    old(self).chars@,
                    old(self).pos as int,
                ),
            decreases self.chars.len() - self.pos,
        {
            self.pos += 1;
        }
    }

    /// Moves to the next newline, or to the end of the text.
    fn skip_line(&mut self)
        requires
            old(self).wf(),
        ensures
            final(self).wf(),
            final(self).source() == old(self).source(),
            final(self).offset() == line_end(old(self).source(), old(self).offset()),
    {
        while self.pos < self.chars.len() && self.chars[self.pos] != '\n'
            invariant
                self.wf(),
                self.chars == old(self).chars,
                line_end(self.chars@, self.pos as int) == line_end(
                    old(self).chars@,
                    old(self).pos as int,
                ),
            decreases self.chars.len() - self.pos,
        {
            self.pos += 1;
        }
    }

    /// Reads the body of a string literal, the opening quote already read,
    /// and the closing quote.
    fn read_string(&mut self) -> (token: Token)
        requires
            old(self).wf(),
        ensures
            final(self).wf(),
            final(self).source() == old(self).source(),
            ({
                let s = old(self).source();
                let close = string_end(s, old(self).offset());
                if close < s.len() {
                    &&& token@ == TokenView::String(string_text(s, old(self).offset()))
                    &&& final(self).offset() == close + 1
                } else {
                    &&& token@ == TokenView::Illegal(unterminated())
                    &&& final(self).offset() == close
                }
            }),
    {
        let mut text = String::new();
        let ghost start = self.pos as int;
        let ghost s = self.chars@;
        assert(text@ + string_text(s, start) == string_text(s, start));
        while self.pos < self.chars.len() && self.chars[self.pos] != '"'
            invariant
                self.wf(),
                self.chars@ == s,
                start <= self.pos,
                string_end(s, start) == string_end(s, self.pos as int),
                string_text(s, start) == text@ + string_text(s, self.pos as int),
            decreases self.chars.len() - self.pos,
        {
            let ghost before = text@;
            let ghost here = self.pos as int;
            let c = self.chars[self.pos];
            let mut known: Option<char> = None;
            if c == '\\' && self.pos + 1 < self.chars.len() {
                known = escape(self.chars[self.pos + 1]);
            }
            match known {
                Some(e) => {
                    text.push(e);
                    self.pos += 2;
                },
                None => {
                    text.push(c);
                    self.pos += 1;
                },
            }
            assert(before.push(string_item(s, here)) + string_text(s, string_step(s, here))
                == before + (seq![string_item(s, here)] + string_text(s, string_step(s, here))));
        }
        assert(text@ + Seq::<char>::empty() == text@);
        if self.pos < self.chars.len() {
            self.pos += 1;
            Token::String(text)
        } else {
            Token::Illegal(String::from_str("Unterminated string"))
        }
    }

    /// Reads a run of digits that starts at the current offset.
    fn read_number(&mut self) -> (token: Token)
        requires
            old(self).wf(),
        ensures
            final(self).wf(),
            final(self).source() == old(self).source(),
            final(self).offset() == digits_end(old(self).source(), old(self).offset()),
            token@ == number_token(
                old(self).source().subrange(old(self).offset(), final(self).offset()),
            ),
    {
        let start = self.pos;
        let ghost s = self.chars@;
        let mut value: i64 = 0;
        let mut fits = true;
        assert(s.subrange(start as int, start as int) =~= Seq::<char>::empty());
        while self.pos < self.chars.len() && digit(self.chars[self.pos])
            invariant
                self.wf(),
                self.chars@ == s,
                start <= self.pos,
                digits_end(s, start as int) == digits_end(s, self.pos as int),
                0 <= value,
                fits ==> value == digits_value(s.subrange(start as int, self.pos as int)),
                !fits ==> digits_value(s.subrange(start as int, self.pos as int)) > i64::MAX,
            decreases self.chars.len() - self.pos,
        {
            let d = value_of_digit(self.chars[self.pos]);
            proof {
                let longer = s.subrange(start as int, self.pos + 1);
                assert(longer.drop_last() =~= s.subrange(start as int, self.pos as int));
                assert(longer.last() == s[self.pos as int]);
            }
            if fits {
                if value <= 922337203685477580 && value * 10 <= i64::MAX - d {
                    value = value * 10 + d;
                } else {
                    fits = false;
                }
            }
            self.pos += 1;
        }
        if fits {
            Token::Integer(value)
        } else {
            Token::Illegal(slice_to_string(&self.chars, start, self.pos))
        }
    }

    /// Reads a run of identifier characters that starts at the current
    /// offset.
    fn read_word(&mut self) -> (token: Token)
        requires
            old(self).wf(),
        ensures
            final(self).wf(),
            final(self).source() == old(self).source(),
            final(self).offset() == word_end(old(self).source(), old(self).offset()),
            token@ == word_token(
                old(self).source().subrange(old(self).offset(), final(self).offset()),
            ),
    {
        let start = self.pos;
        while self.pos < self.chars.len() && word_part(self.chars[self.pos])
            invariant
                self.wf(),
                self.chars == old(self).chars,
                start <= self.pos,
                word_end(self.chars@, start as int) == word_end(self.chars@, self.pos as int),
            decreases self.chars.len() - self.pos,
        {
            self.pos += 1;
        }
        let end = self.pos;
        if spells(&self.chars, start, end, "int") {
            Token::Int
        } else if spells(&self.chars, start, end, "return") {
            Token::Return
        } else if spells(&self.chars, start, end, "if") {
            Token::If
        } else if spells(&self.chars, start, end, "else") {
            Token::Else
        } else if spells(&self.chars, start, end, "while") {
            Token::While
        } else {
            Token::Identifier(slice_to_string(&self.chars, start, end))
        }
    }
}

} // verus!
