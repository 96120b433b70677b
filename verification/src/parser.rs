//! The parser: recursive descent over statements, precedence climbing over
//! expressions.
//!
//! What the parser computes is given by spec functions over the sequence of
//! tokens that remain to be read (`Parser::tokens`), the current token first.
//! Each says which node is built, how many tokens are consumed and which
//! error messages are recorded. The methods of `Parser` are proved to compute
//! exactly that.

use crate::ast::Expression;
use crate::ast::ExpressionView;
use crate::ast::Program;
use crate::ast::Statement;
use crate::ast::StatementView;
use crate::ast::expressions_view;
use crate::ast::statements_view;
use crate::text::strings_view;
use crate::token::Lexer;
use crate::token::Token;
use crate::token::TokenView;
use crate::token::lex;
use vstd::prelude::*;

verus! {

// ---------------------------------------------------------------------------
// Token sequences
// ---------------------------------------------------------------------------

/// The tokens of `s` from offset `pos` on, up to the end of the input. The
/// closing `EOF` is left out: past the end every token is `EOF`.
pub open spec fn token_stream(s: Seq<char>, pos: int) -> Seq<TokenView>
    decreases s.len() - pos,
{
    if 0 <= pos <= s.len() && !(lex(s, pos).token is EOF) {
        proof {
            crate::token::lemma_lex_bounds(s, pos);
        }
        seq![lex(s, pos).token] + token_stream(s, lex(s, pos).end)
    } else {
        Seq::empty()
    }
}

/// The token at position `at` of `ts`; `EOF` past the end.
pub open spec fn token_at(ts: Seq<TokenView>, at: nat) -> TokenView {
    if at < ts.len() {
        ts[at as int]
    } else {
        TokenView::EOF
    }
}

/// The number of tokens of `ts` from position `at` on.
pub open spec fn remaining(ts: Seq<TokenView>, at: nat) -> nat {
    if at < ts.len() {
        (ts.len() - at) as nat
    } else {
        0
    }
}

// ---------------------------------------------------------------------------
// Precedence
// ---------------------------------------------------------------------------

/// Binding strength of an operator, weakest first.
#[derive(Debug, Clone, Copy, PartialEq, Eq, Structural)]
pub enum Precedence {
    Lowest,
    /// `==` and `!=`
    Equals,
    /// `<` and `>`
    LessGreater,
    /// `+` and `-`
    Sum,
    /// `*` and `/`
    Product,
    /// unary `-`
    Prefix,
    /// a call's `(`
    Call,
}

impl Precedence {
    /// The position of this level in the order, from 0 for the weakest.
    pub open spec fn level(self) -> int {
        match self {
            Precedence::Lowest => 0,
            Precedence::Equals => 1,
            Precedence::LessGreater => 2,
            Precedence::Sum => 3,
            Precedence::Product => 4,
            Precedence::Prefix => 5,
            Precedence::Call => 6,
        }
    }

    /// The position of this level in the order, from 0 for the weakest.
    pub fn rank(self) -> (r: u8)
        ensures
            r == self.level(),
    {
        match self {
            Precedence::Lowest => 0,
            Precedence::Equals => 1,
            Precedence::LessGreater => 2,
            Precedence::Sum => 3,
            Precedence::Product => 4,
            Precedence::Prefix => 5,
            Precedence::Call => 6,
        }
    }
}

/// The precedence with which a token continues an expression; `Lowest` for a
/// token that continues none.
pub open spec fn precedence_of(token: TokenView) -> Precedence {
    match token {
        TokenView::Equal | TokenView::NotEqual => Precedence::Equals,
        TokenView::LessThan | TokenView::GreaterThan => Precedence::LessGreater,
        TokenView::Plus | TokenView::Minus => Precedence::Sum,
        TokenView::Asterisk | TokenView::Slash => Precedence::Product,
        TokenView::LParen => Precedence::Call,
        _ => Precedence::Lowest,
    }
}

/// The precedence with which a token continues an expression.
pub fn token_precedence(token: &Token) -> (r: Precedence)
    ensures
        r == precedence_of(token@),
{
    match token {
        Token::Equal | Token::NotEqual => Precedence::Equals,
        Token::LessThan | Token::GreaterThan => Precedence::LessGreater,
        Token::Plus | Token::Minus => Precedence::Sum,
        Token::Asterisk | Token::Slash => Precedence::Product,
        Token::LParen => Precedence::Call,
        _ => Precedence::Lowest,
    }
}

// ---------------------------------------------------------------------------
// What the parser computes
// ---------------------------------------------------------------------------
//
// Each function below takes the tokens of the input, the position of the
// cursor and the messages recorded so far, and gives the outcome of parsing
// one construct from there.

/// The outcome of parsing one construct: the node built, if any; the number
/// of tokens by which the cursor has moved; all messages recorded so far, in
/// order.
pub struct Parsed<T> {
    pub node: Option<T>,
    pub used: nat,
    pub errors: Seq<Seq<char>>,
}

impl<T> Parsed<T> {
    /// This outcome, reached after the cursor had already moved by `used`.
    pub open spec fn after(self, used: nat) -> Parsed<T> {
        Parsed { node: self.node, used: used + self.used, errors: self.errors }
    }
}

/// The outcome that builds `node`.
pub open spec fn built<T>(node: T, used: nat, errors: Seq<Seq<char>>) -> Parsed<T> {
    Parsed { node: Some(node), used, errors }
}

/// The outcome that builds nothing.
pub open spec fn failed<T>(used: nat, errors: Seq<Seq<char>>) -> Parsed<T> {
    Parsed { node: None, used, errors }
}

/// The message recorded when `expected` was required and `got` was found.
pub open spec fn expected_message(expected: TokenView, got: TokenView) -> Seq<char> {
    "Expected "@ + crate::token::token_debug(expected) + ", got "@ + crate::token::token_debug(
        got,
    )
}

/// Requiring `expected` after the cursor: where it is there, the cursor
/// moves onto it; else a message is recorded and the cursor stays.
pub open spec fn expect_next(
    ts: Seq<TokenView>,
    at: nat,
    errors: Seq<Seq<char>>,
    expected: TokenView,
) -> Parsed<()> {
    if token_at(ts, at + 1) == expected {
        built((), 1, errors)
    } else {
        failed(0, errors.push(expected_message(expected, token_at(ts, at + 1))))
    }
}

/// One if a semicolon follows position `at` (the cursor moves onto it), else
/// zero.
pub open spec fn semicolon(ts: Seq<TokenView>, at: nat) -> nat {
    if token_at(ts, at + 1) is Semicolon {
        1
    } else {
        0
    }
}

/// An expression that starts under the cursor, continued while operators
/// bind tighter than `precedence`. The cursor ends on the last token of the
/// expression.
pub open spec fn parse_expression(
    ts: Seq<TokenView>,
    at: nat,
    errors: Seq<Seq<char>>,
    precedence: Precedence,
) -> Parsed<ExpressionView>
    decreases remaining(ts, at), 1int,
{
    match token_at(ts, at) {
        TokenView::Identifier(name) => climb(
            ts,
            at,
            errors,
            ExpressionView::Identifier(name),
            precedence,
        ),
        TokenView::Integer(value) => climb(
            ts,
            at,
            errors,
            ExpressionView::Integer(value),
            precedence,
        ),
        TokenView::String(value) => climb(
            ts,
            at,
            errors,
            ExpressionView::String(value),
            precedence,
        ),
        TokenView::Minus => {
            let right = parse_expression(ts, at + 1, errors, Precedence::Prefix);
            match right.node {
                Some(operand) => climb(
                    ts,
                    at + 1 + right.used,
                    right.errors,
                    ExpressionView::Prefix { operator: TokenView::Minus, right: Box::new(operand) },
                    precedence,
                ).after(1 + right.used),
                None => failed(1 + right.used, right.errors),
            }
        },
        TokenView::LParen => {
            let inner = parse_expression(ts, at + 1, errors, Precedence::Lowest);
            match inner.node {
                Some(expression) => {
                    let close = expect_next(
                        ts,
                        at + 1 + inner.used,
                        inner.errors,
                        TokenView::RParen,
                    );
                    if close.node is Some {
                        climb(ts, at + 2 + inner.used, close.errors, expression, precedence).after(
                            2 + inner.used,
                        )
                    } else {
                        failed(1 + inner.used, close.errors)
                    }
                },
                None => failed(1 + inner.used, inner.errors),
            }
        },
        _ => failed(0, errors),
    }
}

/// The continuation of an expression whose left part `left` ends under the
/// cursor: calls and binary operators that bind tighter than `precedence`,
/// associated to the left.
pub open spec fn climb(
    ts: Seq<TokenView>,
    at: nat,
    errors: Seq<Seq<char>>,
    left: ExpressionView,
    precedence: Precedence,
) -> Parsed<ExpressionView>
    decreases remaining(ts, at), 0int,
{
    let next = token_at(ts, at + 1);
    if next is Semicolon || precedence.level() >= precedence_of(next).level() {
        built(left, 0, errors)
    } else if next is LParen {
        let call = parse_call_expression(ts, at + 1, errors, left);
        match call.node {
            Some(expression) => climb(
                ts,
                at + 1 + call.used,
                call.errors,
                expression,
                precedence,
            ).after(1 + call.used),
            None => failed(1 + call.used, call.errors),
        }
    } else {
        let right = parse_expression(ts, at + 2, errors, precedence_of(next));
        match right.node {
            Some(operand) => climb(
                ts,
                at + 2 + right.used,
                right.errors,
                ExpressionView::Infix {
                    left: Box::new(left),
                    operator: next,
                    right: Box::new(operand),
                },
                precedence,
            ).after(2 + right.used),
            None => failed(2 + right.used, right.errors),
        }
    }
}

/// A call of `function`, the cursor on the opening parenthesis. The cursor
/// ends on the closing one.
pub open spec fn parse_call_expression(
    ts: Seq<TokenView>,
    at: nat,
    errors: Seq<Seq<char>>,
    function: ExpressionView,
) -> Parsed<ExpressionView>
    decreases remaining(ts, at), 3int,
{
    if token_at(ts, at + 1) is RParen {
        built(
            ExpressionView::Call { function: Box::new(function), arguments: Seq::empty() },
            1,
            errors,
        )
    } else {
        let arguments = parse_arguments(ts, at + 1, errors, Seq::empty());
        match arguments.node {
            Some(list) => built(
                ExpressionView::Call { function: Box::new(function), arguments: list },
                1 + arguments.used,
                arguments.errors,
            ),
            None => failed(1 + arguments.used, arguments.errors),
        }
    }
}

/// The arguments of a call after those in `done`, the cursor on the first
/// token of the next argument: expressions separated by commas, then the
/// closing parenthesis.
pub open spec fn parse_arguments(
    ts: Seq<TokenView>,
    at: nat,
    errors: Seq<Seq<char>>,
    done: Seq<ExpressionView>,
) -> Parsed<Seq<ExpressionView>>
    decreases remaining(ts, at), 2int,
{
    let argument = parse_expression(ts, at, errors, Precedence::Lowest);
    match argument.node {
        Some(expression) => {
            if token_at(ts, at + argument.used + 1) is Comma {
                parse_arguments(
                    ts,
                    at + argument.used + 2,
                    argument.errors,
                    done.push(expression),
                ).after(argument.used + 2)
            } else {
                let close = expect_next(
                    ts,
                    at + argument.used,
                    argument.errors,
                    TokenView::RParen,
                );
                if close.node is Some {
                    built(done.push(expression), argument.used + 1, close.errors)
                } else {
                    failed(argument.used, close.errors)
                }
            }
        },
        None => failed(argument.used, argument.errors),
    }
}

/// The statements after those in `done`, the cursor on the first token of
/// the next statement, up to the end of the input or, inside a block, up to
/// the closing brace. A statement that fails to parse is left out. After
/// each statement the cursor moves past the token on which it ended.
pub open spec fn parse_statements(
    ts: Seq<TokenView>,
    at: nat,
    errors: Seq<Seq<char>>,
    done: Seq<StatementView>,
    in_block: bool,
) -> Parsed<Seq<StatementView>>
    decreases remaining(ts, at), 4int,
{
    if token_at(ts, at) is EOF || (in_block && token_at(ts, at) is RBrace) {
        built(done, 0, errors)
    } else {
        let statement = parse_statement(ts, at, errors);
        let kept = match statement.node {
            Some(node) => done.push(node),
            None => done,
        };
        parse_statements(ts, at + statement.used + 1, statement.errors, kept, in_block).after(
            statement.used + 1,
        )
    }
}

/// A block, the cursor on the opening brace. The cursor ends on the closing
/// brace, or at the end of the input.
pub open spec fn parse_block_statement(
    ts: Seq<TokenView>,
    at: nat,
    errors: Seq<Seq<char>>,
) -> Parsed<Seq<StatementView>>
    decreases remaining(ts, at), 0int,
{
    if token_at(ts, at) is EOF {
        built(Seq::empty(), 1, errors)
    } else {
        parse_statements(ts, at + 1, errors, Seq::empty(), true).after(1)
    }
}

/// The statement that starts under the cursor. The cursor ends on the last
/// token of the statement.
pub open spec fn parse_statement(ts: Seq<TokenView>, at: nat, errors: Seq<Seq<char>>) -> Parsed<
    StatementView,
>
    decreases remaining(ts, at), 3int,
{
    match token_at(ts, at) {
        TokenView::Int => {
            if token_at(ts, at + 1) is Identifier {
                parse_let_statement(ts, at, errors)
            } else {
                failed(0, errors)
            }
        },
        TokenView::Return => parse_return_statement(ts, at, errors),
        TokenView::LBrace => {
            let block = parse_block_statement(ts, at, errors);
            match block.node {
                Some(statements) => built(
                    StatementView::Block(statements),
                    block.used,
                    block.errors,
                ),
                None => failed(block.used, block.errors),
            }
        },
        TokenView::If => parse_if_statement(ts, at, errors),
        TokenView::While => parse_while_statement(ts, at, errors),
        _ => parse_expression_statement(ts, at, errors),
    }
}

/// A declaration, the cursor on `int`: a function where a parenthesis
/// follows the name, else a variable with its initial value.
pub open spec fn parse_let_statement(
    ts: Seq<TokenView>,
    at: nat,
    errors: Seq<Seq<char>>,
) -> Parsed<StatementView>
    decreases remaining(ts, at), 2int,
{
    match token_at(ts, at + 1) {
        TokenView::Identifier(name) => {
            if token_at(ts, at + 2) is LParen {
                parse_function_statement(ts, at + 1, errors, name).after(1)
            } else {
                let assign = expect_next(ts, at + 1, errors, TokenView::Assign);
                if assign.node is Some {
                    let value = parse_expression(ts, at + 3, errors, Precedence::Lowest);
                    match value.node {
                        Some(expression) => built(
                            StatementView::Let { name, value: expression },
                            3 + value.used + semicolon(ts, at + 3 + value.used),
                            value.errors,
                        ),
                        None => failed(3 + value.used, value.errors),
                    }
                } else {
                    failed(1, assign.errors)
                }
            }
        },
        _ => failed(1, errors),
    }
}

/// A function declaration named `name`, the cursor on the name: the
/// parameters in parentheses, then the body.
pub open spec fn parse_function_statement(
    ts: Seq<TokenView>,
    at: nat,
    errors: Seq<Seq<char>>,
    name: Seq<char>,
) -> Parsed<StatementView>
    decreases remaining(ts, at), 1int,
{
    let params = parse_function_parameters(ts, at + 1, errors);
    match params.node {
        Some(names) => {
            let open = expect_next(ts, at + 1 + params.used, params.errors, TokenView::LBrace);
            if open.node is Some {
                let body = parse_block_statement(ts, at + 2 + params.used, params.errors);
                match body.node {
                    Some(statements) => built(
                        StatementView::Function { name, params: names, body: statements },
                        2 + params.used + body.used,
                        body.errors,
                    ),
                    None => failed(2 + params.used + body.used, body.errors),
                }
            } else {
                failed(1 + params.used, open.errors)
            }
        },
        None => failed(1 + params.used, params.errors),
    }
}

/// The parameters of a function, the cursor on the opening parenthesis:
/// `int` and a name for each, separated by commas. The cursor ends on the
/// closing parenthesis.
pub open spec fn parse_function_parameters(
    ts: Seq<TokenView>,
    at: nat,
    errors: Seq<Seq<char>>,
) -> Parsed<Seq<Seq<char>>> {
    if token_at(ts, at + 1) is RParen {
        built(Seq::empty(), 1, errors)
    } else {
        parse_parameters(ts, at + 1, errors, Seq::empty()).after(1)
    }
}

/// The parameters after those in `done`, the cursor on the `int` of the next
/// one.
pub open spec fn parse_parameters(
    ts: Seq<TokenView>,
    at: nat,
    errors: Seq<Seq<char>>,
    done: Seq<Seq<char>>,
) -> Parsed<Seq<Seq<char>>>
    decreases remaining(ts, at),
{
    if token_at(ts, at) is Int {
        match token_at(ts, at + 1) {
            TokenView::Identifier(name) => {
                if token_at(ts, at + 2) is Comma {
                    parse_parameters(ts, at + 3, errors, done.push(name)).after(3)
                } else {
                    let close = expect_next(ts, at + 1, errors, TokenView::RParen);
                    if close.node is Some {
                        built(done.push(name), 2, close.errors)
                    } else {
                        failed(1, close.errors)
                    }
                }
            },
            _ => failed(1, errors),
        }
    } else {
        failed(0, errors)
    }
}

/// A return statement, the cursor on `return`.
pub open spec fn parse_return_statement(
    ts: Seq<TokenView>,
    at: nat,
    errors: Seq<Seq<char>>,
) -> Parsed<StatementView> {
    let value = parse_expression(ts, at + 1, errors, Precedence::Lowest);
    match value.node {
        Some(expression) => built(
            StatementView::Return(expression),
            1 + value.used + semicolon(ts, at + 1 + value.used),
            value.errors,
        ),
        None => failed(1 + value.used, value.errors),
    }
}

/// An expression used as a statement.
pub open spec fn parse_expression_statement(
    ts: Seq<TokenView>,
    at: nat,
    errors: Seq<Seq<char>>,
) -> Parsed<StatementView> {
    let value = parse_expression(ts, at, errors, Precedence::Lowest);
    match value.node {
        Some(expression) => built(
            StatementView::Expression(expression),
            value.used + semicolon(ts, at + value.used),
            value.errors,
        ),
        None => failed(value.used, value.errors),
    }
}

/// The head shared by `if` and `while`, the cursor on the keyword: a
/// condition in parentheses, then an opening brace, on which the cursor
/// ends.
pub open spec fn parse_condition(ts: Seq<TokenView>, at: nat, errors: Seq<Seq<char>>) -> Parsed<
    ExpressionView,
> {
    let open = expect_next(ts, at, errors, TokenView::LParen);
    if open.node is Some {
        let condition = parse_expression(ts, at + 2, errors, Precedence::Lowest);
        match condition.node {
            Some(expression) => {
                let close = expect_next(
                    ts,
                    at + 2 + condition.used,
                    condition.errors,
                    TokenView::RParen,
                );
                if close.node is Some {
                    let brace = expect_next(
                        ts,
                        at + 3 + condition.used,
                        condition.errors,
                        TokenView::LBrace,
                    );
                    if brace.node is Some {
                        built(expression, 4 + condition.used, condition.errors)
                    } else {
                        failed(3 + condition.used, brace.errors)
                    }
                } else {
                    failed(2 + condition.used, close.errors)
                }
            },
            None => failed(2 + condition.used, condition.errors),
        }
    } else {
        failed(0, open.errors)
    }
}

/// An `if` statement, the cursor on `if`: the condition, the block to run
/// when it holds, and after `else` the block to run when it does not.
pub open spec fn parse_if_statement(
    ts: Seq<TokenView>,
    at: nat,
    errors: Seq<Seq<char>>,
) -> Parsed<StatementView>
    decreases remaining(ts, at), 1int,
{
    let head = parse_condition(ts, at, errors);
    match head.node {
        Some(condition) => {
            let consequence = parse_block_statement(ts, at + head.used, head.errors);
            let used = head.used + consequence.used;
            if token_at(ts, at + used + 1) is Else {
                let brace = expect_next(ts, at + used + 1, consequence.errors, TokenView::LBrace);
                if brace.node is Some {
                    let alternative = parse_block_statement(
                        ts,
                        at + used + 2,
                        consequence.errors,
                    );
                    built(
                        StatementView::If {
                            condition,
                            consequence: consequence.node->0,
                            alternative: Some(alternative.node->0),
                        },
                        used + 2 + alternative.used,
                        alternative.errors,
                    )
                } else {
                    failed(used + 1, brace.errors)
                }
            } else {
                built(
                    StatementView::If {
                        condition,
                        consequence: consequence.node->0,
                        alternative: None,
                    },
                    used,
                    consequence.errors,
                )
            }
        },
        None => failed(head.used, head.errors),
    }
}

/// A `while` statement, the cursor on `while`: the condition and the body.
pub open spec fn parse_while_statement(
    ts: Seq<TokenView>,
    at: nat,
    errors: Seq<Seq<char>>,
) -> Parsed<StatementView>
    decreases remaining(ts, at), 1int,
{
    let head = parse_condition(ts, at, errors);
    match head.node {
        Some(condition) => {
            let body = parse_block_statement(ts, at + head.used, head.errors);
            built(
                StatementView::While { condition, body: body.node->0 },
                head.used + body.used,
                body.errors,
            )
        },
        None => failed(head.used, head.errors),
    }
}

/// A whole program: the statements from the cursor to the end of the input.
pub open spec fn parse_program(ts: Seq<TokenView>, at: nat, errors: Seq<Seq<char>>) -> Parsed<
    Seq<StatementView>,
> {
    parse_statements(ts, at, errors, Seq::empty(), false)
}

// ---------------------------------------------------------------------------
// Laws
// ---------------------------------------------------------------------------

/// Whether `token` is a binary operator.
pub open spec fn is_binary(token: TokenView) -> bool {
    token is Plus || token is Minus || token is Slash || token is Asterisk || token is Equal
        || token is NotEqual || token is LessThan || token is GreaterThan
}

/// The expression `left operator right`.
pub open spec fn infix(left: ExpressionView, operator: TokenView, right: ExpressionView) -> ExpressionView {
    ExpressionView::Infix { left: Box::new(left), operator, right: Box::new(right) }
}

/// Precedence and associativity: of two operators between three operands,
/// the second takes the middle operand where it binds tighter than the
/// first; else the first takes it, so that operators of one level group
/// from the left.
pub proof fn lemma_two_operators(
    a: i64,
    first: TokenView,
    b: i64,
    second: TokenView,
    c: i64,
    errors: Seq<Seq<char>>,
)
    requires
        is_binary(first),
        is_binary(second),
    ensures
        parse_expression(
            seq![
                TokenView::Integer(a),
                first,
                TokenView::Integer(b),
                second,
                TokenView::Integer(c),
            ],
            0,
            errors,
            Precedence::Lowest,
        ) == built(
            if precedence_of(second).level() > precedence_of(first).level() {
                infix(
                    ExpressionView::Integer(a),
                    first,
                    infix(ExpressionView::Integer(b), second, ExpressionView::Integer(c)),
                )
            } else {
                infix(
                    infix(ExpressionView::Integer(a), first, ExpressionView::Integer(b)),
                    second,
                    ExpressionView::Integer(c),
                )
            },
            4,
            errors,
        ),
{
    let ts = seq![
        TokenView::Integer(a),
        first,
        TokenView::Integer(b),
        second,
        TokenView::Integer(c),
    ];
    let ia = ExpressionView::Integer(a);
    let ib = ExpressionView::Integer(b);
    let ic = ExpressionView::Integer(c);
    let low = Precedence::Lowest;
    let p1 = precedence_of(first);
    let p2 = precedence_of(second);
    assert(token_at(ts, 5) is EOF);
    assert(token_at(ts, 6) is EOF);
    // The last operand, wherever it is reached from, ends the expression.
    assert(climb(ts, 4, errors, ic, p2) == built(ic, 0, errors));
    assert(parse_expression(ts, 4, errors, p2) == built(ic, 0, errors));
    if p2.level() > p1.level() {
        assert(climb(ts, 4, errors, infix(ib, second, ic), p1) == built(
            infix(ib, second, ic),
            0,
            errors,
        ));
        assert(climb(ts, 2, errors, ib, p1) == built(infix(ib, second, ic), 2, errors));
        assert(parse_expression(ts, 2, errors, p1) == built(infix(ib, second, ic), 2, errors));
        assert(climb(ts, 4, errors, infix(ia, first, infix(ib, second, ic)), low) == built(
            infix(ia, first, infix(ib, second, ic)),
            0,
            errors,
        ));
        assert(climb(ts, 0, errors, ia, low) == built(
            infix(ia, first, infix(ib, second, ic)),
            4,
            errors,
        ));
    } else {
        assert(climb(ts, 2, errors, ib, p1) == built(ib, 0, errors));
        assert(parse_expression(ts, 2, errors, p1) == built(ib, 0, errors));
        assert(climb(ts, 4, errors, infix(infix(ia, first, ib), second, ic), low) == built(
            infix(infix(ia, first, ib), second, ic),
            0,
            errors,
        ));
        assert(climb(ts, 2, errors, infix(ia, first, ib), low) == built(
            infix(infix(ia, first, ib), second, ic),
            2,
            errors,
        ));
        assert(climb(ts, 0, errors, ia, low) == built(
            infix(infix(ia, first, ib), second, ic),
            4,
            errors,
        ));
    }
}

// ---------------------------------------------------------------------------
// The parser
// ---------------------------------------------------------------------------

/// The value of an optional expression.
pub open spec fn expression_node(r: Option<Expression>) -> Option<ExpressionView> {
    match r {
        Some(e) => Some(e@),
        None => None,
    }
}

/// The value of an optional statement.
pub open spec fn statement_node(r: Option<Statement>) -> Option<StatementView> {
    match r {
        Some(s) => Some(s@),
        None => None,
    }
}

/// The value of an optional list of names.
pub open spec fn names_node(r: Option<Vec<String>>) -> Option<Seq<Seq<char>>> {
    match r {
        Some(names) => Some(strings_view(names@)),
        None => None,
    }
}

/// A parser over the tokens of a text: the token under the cursor, the one
/// after it, and the error messages recorded so far.
pub struct Parser {
    lexer: Lexer,
    cur_token: Token,
    peek_token: Token,
    pub errors: Vec<String>,
    stream: Ghost<Seq<TokenView>>,
    cursor: Ghost<nat>,
}

impl Parser {
    /// The tokens of the input that this parser was made for.
    pub closed spec fn tokens(&self) -> Seq<TokenView> {
        self.stream@
    }

    /// The position of the cursor among the tokens.
    pub closed spec fn position(&self) -> nat {
        self.cursor@
    }

    /// The error messages recorded so far.
    pub closed spec fn messages(&self) -> Seq<Seq<char>> {
        strings_view(self.errors@)
    }

    /// The two tokens held are those at the cursor and after it, and the
    /// tokenizer stands behind them.
    #[verifier::opaque]
    pub closed spec fn wf(&self) -> bool {
        &&& self.lexer.wf()
        &&& self.cur_token@ == token_at(self.stream@, self.cursor@)
        &&& self.peek_token@ == token_at(self.stream@, self.cursor@ + 1)
        &&& token_stream(self.lexer.source(), self.lexer.offset()) == if self.cursor@ + 2
            <= self.stream@.len() {
            self.stream@.skip((self.cursor@ + 2) as int)
        } else {
            Seq::empty()
        }
    }

    /// This parser is `before` after `outcome`: the cursor moved, the
    /// messages recorded.
    pub open spec fn follows<T>(&self, before: Parser, outcome: Parsed<T>) -> bool {
        &&& self.wf()
        &&& self.tokens() == before.tokens()
        &&& self.position() == before.position() + outcome.used
        &&& self.messages() == outcome.errors
    }

    /// The tokens held are the one under the cursor and the one after it.
    proof fn lemma_heads(&self)
        requires
            self.wf(),
        ensures
            self.cur_token@ == token_at(self.tokens(), self.position()),
            self.peek_token@ == token_at(self.tokens(), self.position() + 1),
    {
        reveal(Parser::wf);
    }

    /// A parser at the start of the tokens of `lexer`, with no error
    /// recorded.
    pub fn new(lexer: Lexer) -> (parser: Parser)
        requires
            lexer.wf(),
        ensures
            parser.wf(),
            parser.tokens() == token_stream(lexer.source(), lexer.offset()),
            parser.position() == 0,
            parser.messages() == Seq::<Seq<char>>::empty(),
    {
        let mut lexer = lexer;
        let ghost source = lexer.source();
        let ghost start = lexer.offset();
        let cur_token = lexer.next_token();
        let ghost middle = lexer.offset();
        let peek_token = lexer.next_token();
        let ghost end = lexer.offset();
        let ghost stream = token_stream(source, start);
        proof {
            crate::token::lemma_lex_bounds(source, start);
            crate::token::lemma_lex_bounds(source, middle);
            crate::token::lemma_lex_bounds(source, end);
            let second = token_stream(source, middle);
            let third = token_stream(source, end);
            if !(cur_token@ is EOF) {
                assert(stream == seq![cur_token@] + second);
                if !(peek_token@ is EOF) {
                    assert(second == seq![peek_token@] + third);
                    assert(stream.skip(2) =~= third);
                } else {
                    assert(second == Seq::<TokenView>::empty());
                }
            } else {
                assert(second == Seq::<TokenView>::empty());
            }
        }
        let parser = Parser {
            lexer,
            cur_token,
            peek_token,
            errors: Vec::new(),
            stream: Ghost(stream),
            cursor: Ghost(0),
        };
        assert(parser.messages() =~= Seq::<Seq<char>>::empty());
        assert(parser.wf()) by {
            reveal(Parser::wf);
        }
        parser
    }

    /// Moves the cursor to the next token.
    pub fn next_token(&mut self)
        requires
            old(self).wf(),
        ensures
            final(self).wf(),
            final(self).tokens() == old(self).tokens(),
            final(self).position() == old(self).position() + 1,
            final(self).messages() == old(self).messages(),
    {
        let ghost source = self.lexer.source();
        let ghost offset = self.lexer.offset();
        let ghost rest = token_stream(source, offset);
        proof {
            reveal(Parser::wf);
            crate::token::lemma_lex_bounds(source, offset);
        }
        let mut next = self.lexer.next_token();
        core::mem::swap(&mut self.peek_token, &mut next);
        self.cur_token = next;
        proof {
            let stream = self.stream@;
            let at = self.cursor@;
            let after = token_stream(source, self.lexer.offset());
            crate::token::lemma_lex_bounds(source, self.lexer.offset());
            if at + 2 < stream.len() {
                assert(rest[0] == stream[(at + 2) as int]);
                assert(rest == seq![self.peek_token@] + after);
                assert(after =~= rest.skip(1));
                assert(rest.skip(1) =~= stream.skip((at + 3) as int));
            } else if at + 2 == stream.len() {
                assert(rest.len() == 0);
            }
            self.cursor@ = at + 1;
        }
    }

    /// Requires `expected` as the next token. Where it is there, the cursor
    /// moves onto it; else a message is recorded and the cursor stays.
    pub fn expect_peek(&mut self, expected: Token) -> (r: bool)
        requires
            old(self).wf(),
        ensures
            r == expect_next(
                old(self).tokens(),
                old(self).position(),
                old(self).messages(),
                expected@,
            ).node is Some,
            final(self).follows(
                *old(self),
                expect_next(
                    old(self).tokens(),
                    old(self).position(),
                    old(self).messages(),
                    expected@,
                ),
            ),
    {
        proof {
            self.lemma_heads();
        }
        if self.peek_token == expected {
            self.next_token();
            true
        } else {
            let mut message = String::from_str("Expected ");
            message.append(expected.debug_string().as_str());
            message.append(", got ");
            message.append(self.peek_token.debug_string().as_str());
            proof {
                crate::text::lemma_strings_push(self.errors@, message);
                reveal(Parser::wf);
            }
            self.errors.push(message);
            false
        }
    }

    /// Whether the token after the cursor continues an expression at
    /// `precedence`.
    fn continues(&self, precedence: Precedence) -> (r: bool)
        requires
            self.wf(),
        ensures
            r == !(token_at(self.tokens(), self.position() + 1) is Semicolon
                || precedence.level() >= precedence_of(
                token_at(self.tokens(), self.position() + 1),
            ).level()),
    {
        proof {
            self.lemma_heads();
        }
        self.peek_token != Token::Semicolon && precedence.rank() < token_precedence(
            &self.peek_token,
        ).rank()
    }

    /// Parses the expression that starts under the cursor, continued while
    /// operators bind tighter than `precedence`.
    pub fn parse_expression(&mut self, precedence: Precedence) -> (r: Option<Expression>)
        requires
            old(self).wf(),
        ensures
            expression_node(r) == parse_expression(
                old(self).tokens(),
                old(self).position(),
                old(self).messages(),
                precedence,
            ).node,
            final(self).follows(
                *old(self),
                parse_expression(
                    old(self).tokens(),
                    old(self).position(),
                    old(self).messages(),
                    precedence,
                ),
            ),
        decreases remaining(old(self).tokens(), old(self).position()), 1int,
    {
        let ghost ts = self.tokens();
        let ghost at = self.position();
        let ghost errors = self.messages();
        proof {
            self.lemma_heads();
        }
        let mut left: Option<Expression>;
        match &self.cur_token {
            Token::Identifier(name) => {
                left = Some(Expression::Identifier(name.clone()));
            },
            Token::Integer(value) => {
                left = Some(Expression::Integer(*value));
            },
            Token::String(value) => {
                left = Some(Expression::String(value.clone()));
            },
            Token::Minus => {
                self.next_token();
                match self.parse_expression(Precedence::Prefix) {
                    Some(operand) => {
                        left = Some(
                            Expression::Prefix { operator: Token::Minus, right: Box::new(operand) },
                        );
                    },
                    None => {
                        return None;
                    },
                }
            },
            Token::LParen => {
                self.next_token();
                match self.parse_expression(Precedence::Lowest) {
                    Some(expression) => {
                        if !self.expect_peek(Token::RParen) {
                            return None;
                        }
                        left = Some(expression);
                    },
                    None => {
                        return None;
                    },
                }
            },
            _ => {
                return None;
            },
        }
        while self.continues(precedence)
            invariant
                self.wf(),
                self.tokens() == ts,
                self.position() >= at,
                ts == old(self).tokens(),
                at == old(self).position(),
                errors == old(self).messages(),
                left is Some,
                parse_expression(ts, at, errors, precedence) == climb(
                    ts,
                    self.position(),
                    self.messages(),
                    left->0@,
                    precedence,
                ).after((self.position() - at) as nat),
            decreases remaining(ts, self.position()),
        {
            proof {
                self.lemma_heads();
            }
            let head = left.take().unwrap();
            if self.peek_token == Token::LParen {
                self.next_token();
                left = self.parse_call_expression(head);
            } else {
                self.next_token();
                proof {
                    self.lemma_heads();
                }
                let operator = self.cur_token.clone();
                self.next_token();
                match self.parse_expression(token_precedence(&operator)) {
                    Some(operand) => {
                        left = Some(
                            Expression::Infix {
                                left: Box::new(head),
                                operator,
                                right: Box::new(operand),
                            },
                        );
                    },
                    None => {},
                }
            }
            if left.is_none() {
                return None;
            }
        }
        left
    }

    /// Parses a call of `function`, the cursor on the opening parenthesis.
    pub fn parse_call_expression(&mut self, function: Expression) -> (r: Option<Expression>)
        requires
            old(self).wf(),
        ensures
            expression_node(r) == parse_call_expression(
                old(self).tokens(),
                old(self).position(),
                old(self).messages(),
                function@,
            ).node,
            final(self).follows(
                *old(self),
                parse_call_expression(
                    old(self).tokens(),
                    old(self).position(),
                    old(self).messages(),
                    function@,
                ),
            ),
        decreases remaining(old(self).tokens(), old(self).position()), 3int,
    {
        proof {
            self.lemma_heads();
        }
        if self.peek_token == Token::RParen {
            self.next_token();
            let arguments: Vec<Expression> = Vec::new();
            assert(expressions_view(arguments@) =~= Seq::<ExpressionView>::empty());
            return Some(Expression::Call { function: Box::new(function), arguments });
        }
        self.next_token();
        match self.parse_arguments() {
            Some(arguments) => Some(Expression::Call { function: Box::new(function), arguments }),
            None => None,
        }
    }

    /// Parses the arguments of a call, the cursor on the first token of the
    /// first one, up to the closing parenthesis.
    fn parse_arguments(&mut self) -> (r: Option<Vec<Expression>>)
        requires
            old(self).wf(),
        ensures
            match r {
                Some(arguments) => Some(expressions_view(arguments@)),
                None => None,
            } == parse_arguments(
                old(self).tokens(),
                old(self).position(),
                old(self).messages(),
                Seq::empty(),
            ).node,
            final(self).follows(
                *old(self),
                parse_arguments(
                    old(self).tokens(),
                    old(self).position(),
                    old(self).messages(),
                    Seq::empty(),
                ),
            ),
        decreases remaining(old(self).tokens(), old(self).position()), 2int,
    {
        let ghost ts = self.tokens();
        let ghost at = self.position();
        let ghost errors = self.messages();
        let ghost whole = parse_arguments(ts, at, errors, Seq::empty());
        let mut arguments: Vec<Expression> = Vec::new();
        let mut complete = false;
        assert(expressions_view(arguments@) =~= Seq::<ExpressionView>::empty());
        loop
            invariant_except_break
                !complete,
                whole == parse_arguments(
                    ts,
                    self.position(),
                    self.messages(),
                    expressions_view(arguments@),
                ).after((self.position() - at) as nat),
            invariant
                self.wf(),
                self.tokens() == ts,
                self.position() >= at,
                ts == old(self).tokens(),
                at == old(self).position(),
            ensures
                self.position() == at + whole.used,
                self.messages() == whole.errors,
                complete ==> whole.node == Some(expressions_view(arguments@)),
                !complete ==> whole.node is None,
            decreases remaining(ts, self.position()),
        {
            match self.parse_expression(Precedence::Lowest) {
                Some(expression) => {
                    proof {
                        crate::ast::lemma_expressions_push(arguments@, expression);
                    }
                    arguments.push(expression);
                },
                None => {
                    break ;
                },
            }
            proof {
                self.lemma_heads();
            }
            if self.peek_token == Token::Comma {
                self.next_token();
                self.next_token();
            } else {
                complete = self.expect_peek(Token::RParen);
                break ;
            }
        }
        if complete {
            Some(arguments)
        } else {
            None
        }
    }

    /// Moves onto a semicolon that follows the cursor, if there is one.
    fn skip_semicolon(&mut self)
        requires
            old(self).wf(),
        ensures
            final(self).wf(),
            final(self).tokens() == old(self).tokens(),
            final(self).messages() == old(self).messages(),
            final(self).position() == old(self).position() + semicolon(
                old(self).tokens(),
                old(self).position(),
            ),
    {
        proof {
            self.lemma_heads();
        }
        if self.peek_token == Token::Semicolon {
            self.next_token();
        }
    }

    /// Parses the whole input from the cursor on. Statements that fail to
    /// parse are left out of the program and leave messages in `errors`.
    pub fn parse_program(&mut self) -> (program: Program)
        requires
            old(self).wf(),
        ensures
            Some(program@) == parse_program(
                old(self).tokens(),
                old(self).position(),
                old(self).messages(),
            ).node,
            final(self).follows(
                *old(self),
                parse_program(old(self).tokens(), old(self).position(), old(self).messages()),
            ),
    {
        Program { statements: self.parse_statements(false) }
    }

    /// Parses statements up to the end of the input or, inside a block, up
    /// to the closing brace.
    fn parse_statements(&mut self, in_block: bool) -> (statements: Vec<Statement>)
        requires
            old(self).wf(),
        ensures
            Some(statements_view(statements@)) == parse_statements(
                old(self).tokens(),
                old(self).position(),
                old(self).messages(),
                Seq::empty(),
                in_block,
            ).node,
            final(self).follows(
                *old(self),
                parse_statements(
                    old(self).tokens(),
                    old(self).position(),
                    old(self).messages(),
                    Seq::empty(),
                    in_block,
                ),
            ),
        decreases remaining(old(self).tokens(), old(self).position()), 4int,
    {
        let ghost ts = self.tokens();
        let ghost at = self.position();
        let ghost errors = self.messages();
        let ghost whole = parse_statements(ts, at, errors, Seq::empty(), in_block);
        let mut statements: Vec<Statement> = Vec::new();
        assert(statements_view(statements@) =~= Seq::<StatementView>::empty());
        while !self.at_end(in_block)
            invariant
                self.wf(),
                self.tokens() == ts,
                self.position() >= at,
                ts == old(self).tokens(),
                at == old(self).position(),
                whole == parse_statements(
                    ts,
                    self.position(),
                    self.messages(),
                    statements_view(statements@),
                    in_block,
                ).after((self.position() - at) as nat),
            decreases remaining(ts, self.position()),
        {
            match self.parse_statement() {
                Some(statement) => {
                    proof {
                        crate::ast::lemma_statements_push(statements@, statement);
                    }
                    statements.push(statement);
                },
                None => {},
            }
            self.next_token();
        }
        statements
    }

    /// Whether the cursor is at the end of the input or, inside a block, on
    /// the closing brace.
    fn at_end(&self, in_block: bool) -> (r: bool)
        requires
            self.wf(),
        ensures
            r == (token_at(self.tokens(), self.position()) is EOF || (in_block && token_at(
                self.tokens(),
                self.position(),
            ) is RBrace)),
    {
        proof {
            self.lemma_heads();
        }
        self.cur_token == Token::EOF || (in_block && self.cur_token == Token::RBrace)
    }

    /// Parses the statement that starts under the cursor.
    pub fn parse_statement(&mut self) -> (r: Option<Statement>)
        requires
            old(self).wf(),
        ensures
            statement_node(r) == parse_statement(
                old(self).tokens(),
                old(self).position(),
                old(self).messages(),
            ).node,
            final(self).follows(
                *old(self),
                parse_statement(old(self).tokens(), old(self).position(), old(self).messages()),
            ),
        decreases remaining(old(self).tokens(), old(self).position()), 3int,
    {
        proof {
            self.lemma_heads();
        }
        match &self.cur_token {
            Token::Int => {
                let named = match &self.peek_token {
                    Token::Identifier(_) => true,
                    _ => false,
                };
                if named {
                    self.parse_let_statement()
                } else {
                    None
                }
            },
            Token::Return => self.parse_return_statement(),
            Token::LBrace => Some(Statement::Block(self.parse_block_statement())),
            Token::If => self.parse_if_statement(),
            Token::While => self.parse_while_statement(),
            _ => self.parse_expression_statement(),
        }
    }

    /// Parses a declaration, the cursor on `int`.
    pub fn parse_let_statement(&mut self) -> (r: Option<Statement>)
        requires
            old(self).wf(),
        ensures
            statement_node(r) == parse_let_statement(
                old(self).tokens(),
                old(self).position(),
                old(self).messages(),
            ).node,
            final(self).follows(
                *old(self),
                parse_let_statement(
                    old(self).tokens(),
                    old(self).position(),
                    old(self).messages(),
                ),
            ),
        decreases remaining(old(self).tokens(), old(self).position()), 2int,
    {
        self.next_token();
        proof {
            self.lemma_heads();
        }
        let name = match &self.cur_token {
            Token::Identifier(name) => name.clone(),
            _ => {
                return None;
            },
        };
        if self.peek_token == Token::LParen {
            return self.parse_function_statement(name);
        }
        if !self.expect_peek(Token::Assign) {
            return None;
        }
        self.next_token();
        match self.parse_expression(Precedence::Lowest) {
            Some(value) => {
                self.skip_semicolon();
                Some(Statement::Let { name, value })
            },
            None => None,
        }
    }

    /// Parses a function declaration named `name`, the cursor on the name.
    pub fn parse_function_statement(&mut self, name: String) -> (r: Option<Statement>)
        requires
            old(self).wf(),
        ensures
            statement_node(r) == parse_function_statement(
                old(self).tokens(),
                old(self).position(),
                old(self).messages(),
                name@,
            ).node,
            final(self).follows(
                *old(self),
                parse_function_statement(
                    old(self).tokens(),
                    old(self).position(),
                    old(self).messages(),
                    name@,
                ),
            ),
        decreases remaining(old(self).tokens(), old(self).position()), 1int,
    {
        self.next_token();
        match self.parse_function_parameters() {
            Some(params) => {
                if !self.expect_peek(Token::LBrace) {
                    return None;
                }
                let body = self.parse_block_statement();
                Some(Statement::Function { name, params, body })
            },
            None => None,
        }
    }

    /// Parses the parameters of a function, the cursor on the opening
    /// parenthesis.
    pub fn parse_function_parameters(&mut self) -> (r: Option<Vec<String>>)
        requires
            old(self).wf(),
        ensures
            names_node(r) == parse_function_parameters(
                old(self).tokens(),
                old(self).position(),
                old(self).messages(),
            ).node,
            final(self).follows(
                *old(self),
                parse_function_parameters(
                    old(self).tokens(),
                    old(self).position(),
                    old(self).messages(),
                ),
            ),
    {
        let ghost ts = self.tokens();
        let ghost at = self.position();
        let ghost errors = self.messages();
        let mut identifiers: Vec<String> = Vec::new();
        assert(strings_view(identifiers@) =~= Seq::<Seq<char>>::empty());
        proof {
            self.lemma_heads();
        }
        if self.peek_token == Token::RParen {
            self.next_token();
            return Some(identifiers);
        }
        self.next_token();
        let ghost whole = parse_parameters(ts, at + 1, errors, Seq::empty());
        let mut complete = false;
        loop
            invariant_except_break
                !complete,
                whole == parse_parameters(
                    ts,
                    self.position(),
                    errors,
                    strings_view(identifiers@),
                ).after((self.position() - (at + 1)) as nat),
                self.messages() == errors,
            invariant
                self.wf(),
                self.tokens() == ts,
                self.position() >= at + 1,
            ensures
                self.position() == at + 1 + whole.used,
                self.messages() == whole.errors,
                complete ==> whole.node == Some(strings_view(identifiers@)),
                !complete ==> whole.node is None,
            decreases remaining(ts, self.position()),
        {
            proof {
                self.lemma_heads();
            }
            if self.cur_token != Token::Int {
                break ;
            }
            self.next_token();
            proof {
                self.lemma_heads();
            }
            match &self.cur_token {
                Token::Identifier(identifier) => {
                    let identifier = identifier.clone();
                    proof {
                        crate::text::lemma_strings_push(identifiers@, identifier);
                    }
                    identifiers.push(identifier);
                },
                _ => {
                    break ;
                },
            }
            if self.peek_token == Token::Comma {
                self.next_token();
                self.next_token();
            } else {
                complete = self.expect_peek(Token::RParen);
                break ;
            }
        }
        if complete {
            Some(identifiers)
        } else {
            None
        }
    }

    /// Parses a return statement, the cursor on `return`.
    pub fn parse_return_statement(&mut self) -> (r: Option<Statement>)
        requires
            old(self).wf(),
        ensures
            statement_node(r) == parse_return_statement(
                old(self).tokens(),
                old(self).position(),
                old(self).messages(),
            ).node,
            final(self).follows(
                *old(self),
                parse_return_statement(
                    old(self).tokens(),
                    old(self).position(),
                    old(self).messages(),
                ),
            ),
    {
        self.next_token();
        match self.parse_expression(Precedence::Lowest) {
            Some(value) => {
                self.skip_semicolon();
                Some(Statement::Return(value))
            },
            None => None,
        }
    }

    /// Parses a block, the cursor on the opening brace.
    pub fn parse_block_statement(&mut self) -> (statements: Vec<Statement>)
        requires
            old(self).wf(),
        ensures
            Some(statements_view(statements@)) == parse_block_statement(
                old(self).tokens(),
                old(self).position(),
                old(self).messages(),
            ).node,
            final(self).follows(
                *old(self),
                parse_block_statement(
                    old(self).tokens(),
                    old(self).position(),
                    old(self).messages(),
                ),
            ),
        decreases remaining(old(self).tokens(), old(self).position()), 0int,
    {
        proof {
            self.lemma_heads();
        }
        if self.cur_token == Token::EOF {
            self.next_token();
            let statements: Vec<Statement> = Vec::new();
            assert(statements_view(statements@) =~= Seq::<StatementView>::empty());
            return statements;
        }
        self.next_token();
        self.parse_statements(true)
    }

    /// Parses the head of an `if` or a `while`, the cursor on the keyword:
    /// the condition in parentheses and the opening brace of the body.
    fn parse_condition(&mut self) -> (r: Option<Expression>)
        requires
            old(self).wf(),
        ensures
            expression_node(r) == parse_condition(
                old(self).tokens(),
                old(self).position(),
                old(self).messages(),
            ).node,
            final(self).follows(
                *old(self),
                parse_condition(old(self).tokens(), old(self).position(), old(self).messages()),
            ),
    {
        if !self.expect_peek(Token::LParen) {
            return None;
        }
        self.next_token();
        match self.parse_expression(Precedence::Lowest) {
            Some(condition) => {
                if !self.expect_peek(Token::RParen) {
                    return None;
                }
                if !self.expect_peek(Token::LBrace) {
                    return None;
                }
                Some(condition)
            },
            None => None,
        }
    }

    /// Parses an `if` statement, the cursor on `if`.
    pub fn parse_if_statement(&mut self) -> (r: Option<Statement>)
        requires
            old(self).wf(),
        ensures
            statement_node(r) == parse_if_statement(
                old(self).tokens(),
                old(self).position(),
                old(self).messages(),
            ).node,
            final(self).follows(
                *old(self),
                parse_if_statement(
                    old(self).tokens(),
                    old(self).position(),
                    old(self).messages(),
                ),
            ),
        decreases remaining(old(self).tokens(), old(self).position()), 1int,
    {
        match self.parse_condition() {
            Some(condition) => {
                let consequence = self.parse_block_statement();
                proof {
                    self.lemma_heads();
                }
                if self.peek_token == Token::Else {
                    self.next_token();
                    if !self.expect_peek(Token::LBrace) {
                        return None;
                    }
                    let alternative = self.parse_block_statement();
                    Some(Statement::If { condition, consequence, alternative: Some(alternative) })
                } else {
                    Some(Statement::If { condition, consequence, alternative: None })
                }
            },
            None => None,
        }
    }

    /// Parses a `while` statement, the cursor on `while`.
    pub fn parse_while_statement(&mut self) -> (r: Option<Statement>)
        requires
            old(self).wf(),
        ensures
            statement_node(r) == parse_while_statement(
                old(self).tokens(),
                old(self).position(),
                old(self).messages(),
            ).node,
            final(self).follows(
                *old(self),
                parse_while_statement(
                    old(self).tokens(),
                    old(self).position(),
                    old(self).messages(),
                ),
            ),
        decreases remaining(old(self).tokens(), old(self).position()), 1int,
    {
        match self.parse_condition() {
            Some(condition) => {
                let body = self.parse_block_statement();
                Some(Statement::While { condition, body })
            },
            None => None,
        }
    }

    /// Parses an expression used as a statement.
    pub fn parse_expression_statement(&mut self) -> (r: Option<Statement>)
        requires
            old(self).wf(),
        ensures
            statement_node(r) == parse_expression_statement(
                old(self).tokens(),
                old(self).position(),
                old(self).messages(),
            ).node,
            final(self).follows(
                *old(self),
                parse_expression_statement(
                    old(self).tokens(),
                    old(self).position(),
                    old(self).messages(),
                ),
            ),
    {
        match self.parse_expression(Precedence::Lowest) {
            Some(value) => {
                self.skip_semicolon();
                Some(Statement::Expression(value))
            },
            None => None,
        }
    }
}

} // verus!
