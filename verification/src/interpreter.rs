//! The evaluator: a walk over the syntax tree against an environment.
//!
//! What evaluation computes is given by the spec functions of this module,
//! over the values of the tree, of the environment and of the open files,
//! and over the answers of the host to the requests of the builtins. The
//! methods of `Interpreter` are proved to compute exactly that for the
//! answers that the host gave.

use crate::ast::Expression;
use crate::ast::ExpressionView;
use crate::ast::Program;
use crate::ast::Statement;
use crate::ast::StatementView;
use crate::ast::expressions_view;
use crate::ast::names_clone;
use crate::ast::statements_clone;
use crate::ast::statements_view;
use crate::env::Environment;
use crate::env::Object;
use crate::env::ObjectView;
use crate::env::ScopeView;
use crate::env::bind;
use crate::env::capture;
use crate::env::release;
use crate::env::chained;
use crate::env::enclose;
use crate::env::lookup;
use crate::env::object_clone;
use crate::env::object_debug;
use crate::env::objects_view;
use crate::env::same_value;
use crate::stdlib::Builtin;
use crate::stdlib::FileState;
use crate::stdlib::Host;
use crate::stdlib::Plan;
use crate::stdlib::Planned;
use crate::stdlib::ReplyView;
use crate::stdlib::RequestView;
use crate::stdlib::LineRead;
use crate::stdlib::LineStatus;
use crate::stdlib::Request;
use crate::stdlib::Reply;
use crate::stdlib::answer_line;
use crate::stdlib::line_answer;
use crate::stdlib::read_line;
use crate::stdlib::reply_at;
use crate::stdlib::answer;
use crate::stdlib::answer_of;
use crate::stdlib::plan;
use crate::stdlib::plan_of;
use crate::text::count_to_string;
use crate::text::decimal;
use crate::text::joined;
use crate::text::strings_view;
use crate::token::Token;
use crate::token::TokenView;
use crate::token::token_debug;
use vstd::prelude::*;

verus! {

// ---------------------------------------------------------------------------
// Values
// ---------------------------------------------------------------------------

/// Whether a value stops the statements that follow: a `return` on its way
/// out, or an error.
pub open spec fn is_signal(value: ObjectView) -> bool {
    value is ReturnValue || value is Error
}

/// Whether a value counts as true in a condition: `Null`, `false` and zero
/// do not; everything else does.
pub open spec fn truthy(value: ObjectView) -> bool {
    match value {
        ObjectView::Null => false,
        ObjectView::Boolean(b) => b,
        ObjectView::Integer(i) => i != 0,
        _ => true,
    }
}

/// The value inside a `return` on its way out; any other value as it is.
pub open spec fn unwrapped(value: ObjectView) -> ObjectView {
    match value {
        ObjectView::ReturnValue(inner) => *inner,
        _ => value,
    }
}

/// The quotient of `l` by `r`, rounded towards zero.
pub open spec fn quotient(l: int, r: int) -> int {
    if l == 0 {
        0
    } else if l > 0 && r > 0 {
        l / r
    } else if l < 0 && r < 0 {
        (-l) / (-r)
    } else if l < 0 {
        -((-l) / r)
    } else {
        -(l / (-r))
    }
}

/// A quotient of two 64-bit integers is a 64-bit integer, but for the
/// smallest integer divided by minus one.
pub proof fn lemma_quotient_in_range(l: i64, r: i64)
    requires
        r != 0,
        !(l == i64::MIN && r == -1),
    ensures
        i64::MIN <= quotient(l as int, r as int) <= i64::MAX,
{
    let a: int = if l < 0 {
        -(l as int)
    } else {
        l as int
    };
    let b: int = if r < 0 {
        -(r as int)
    } else {
        r as int
    };
    vstd::arithmetic::div_mod::lemma_div_pos_is_pos(a, b);
    vstd::arithmetic::div_mod::lemma_div_nonincreasing(a, b);
    if a > 0 && b > 1 {
        vstd::arithmetic::div_mod::lemma_div_decreases(a, b);
    }
}

/// What a unary operator gives: `-` negates an integer, wrapping around at
/// the ends of the 64-bit range; anything else is an error.
pub open spec fn prefix_value(operator: TokenView, right: ObjectView) -> ObjectView {
    match (operator, right) {
        (TokenView::Minus, ObjectView::Integer(value)) => ObjectView::Integer(
            vstd::wrapping::i64_specs::wrapping_sub(0, value),
        ),
        (TokenView::Minus, _) => ObjectView::Error("unknown operator: -"@ + object_debug(right)),
        _ => ObjectView::Error("unknown operator: "@ + token_debug(operator) + object_debug(right)),
    }
}

/// What a binary operator gives on two integers. Sums, differences and
/// products wrap around at the ends of the 64-bit range. A quotient is
/// rounded towards zero; division by zero is an error, and the one quotient
/// out of range wraps around.
pub open spec fn integer_infix(operator: TokenView, l: i64, r: i64) -> ObjectView {
    match operator {
        TokenView::Plus => ObjectView::Integer(vstd::wrapping::i64_specs::wrapping_add(l, r)),
        TokenView::Minus => ObjectView::Integer(vstd::wrapping::i64_specs::wrapping_sub(l, r)),
        TokenView::Asterisk => ObjectView::Integer(vstd::wrapping::i64_specs::wrapping_mul(l, r)),
        TokenView::Slash => if r == 0 {
            ObjectView::Error("division by zero"@)
        } else if l == i64::MIN && r == -1 {
            ObjectView::Integer(i64::MIN)
        } else {
            ObjectView::Integer(quotient(l as int, r as int) as i64)
        },
        TokenView::LessThan => ObjectView::Boolean(l < r),
        TokenView::GreaterThan => ObjectView::Boolean(l > r),
        TokenView::Equal => ObjectView::Boolean(l == r),
        TokenView::NotEqual => ObjectView::Boolean(l != r),
        _ => ObjectView::Error(
            "unknown operator: INTEGER "@ + token_debug(operator) + " INTEGER"@,
        ),
    }
}

/// What a binary operator gives: arithmetic and comparison on two integers,
/// equality on two booleans, equality as the language sees it on any other
/// pair; anything else is an error.
pub open spec fn infix_value(operator: TokenView, left: ObjectView, right: ObjectView) -> ObjectView {
    match (left, right) {
        (ObjectView::Integer(l), ObjectView::Integer(r)) => integer_infix(operator, l, r),
        (ObjectView::Boolean(l), ObjectView::Boolean(r)) => match operator {
            TokenView::Equal => ObjectView::Boolean(l == r),
            TokenView::NotEqual => ObjectView::Boolean(l != r),
            _ => ObjectView::Error(
                "unknown operator: BOOLEAN "@ + token_debug(operator) + " BOOLEAN"@,
            ),
        },
        _ => match operator {
            TokenView::Equal => ObjectView::Boolean(same_value(left, right)),
            TokenView::NotEqual => ObjectView::Boolean(!same_value(left, right)),
            _ => ObjectView::Error(
                "type mismatch: "@ + object_debug(left) + " "@ + token_debug(operator) + " "@
                    + object_debug(right),
            ),
        },
    }
}

// ---------------------------------------------------------------------------
// What evaluation computes
// ---------------------------------------------------------------------------

/// Everything that evaluation reads and changes: the scopes, the flags of
/// the open files, and the requests made of the host so far, in order. Each
/// request uses up one answer.
pub struct World {
    pub scopes: Seq<ScopeView>,
    pub files: Seq<FileState>,
    pub sent: Seq<RequestView>,
}

/// A value, and the world after the evaluation that gave it.
pub struct Evaluated {
    pub value: ObjectView,
    pub world: World,
}

/// The values of the arguments of a call, or the error that stopped their
/// evaluation, and the world after it.
pub struct Arguments {
    pub values: Seq<ObjectView>,
    pub error: Option<ObjectView>,
    pub world: World,
}

/// The error that ends an evaluation that has used up its budget of nested
/// calls, of rounds of a loop, or of bytes of a line.
pub open spec fn exhausted() -> ObjectView {
    ObjectView::Error("evaluation budget exhausted"@)
}

/// The world with `scopes` in place of its scopes.
pub open spec fn with_scopes(world: World, scopes: Seq<ScopeView>) -> World {
    World { scopes, files: world.files, sent: world.sent }
}

/// A call of a builtin: it returns at once, or it asks something of the
/// host, and the next answer decides what it returns; or it reads a line,
/// of at most `fuel` bytes after the first.
pub open spec fn call_builtin(
    builtin: Builtin,
    args: Seq<ObjectView>,
    world: World,
    fuel: nat,
    replies: Seq<ReplyView>,
) -> Evaluated {
    match plan_of(builtin, args, world.files) {
        Plan::Return(value) => Evaluated { value, world },
        Plan::Line(file) => {
            let read = read_line(file, Seq::empty(), world.sent, replies, fuel);
            let outcome = line_answer(world.files, file, read.bytes, read.end);
            Evaluated {
                value: outcome.value,
                world: World { scopes: world.scopes, files: outcome.files, sent: read.sent },
            }
        },
        Plan::Ask(request) => {
            let outcome = answer_of(
                builtin,
                request,
                world.files,
                reply_at(replies, world.sent.len()),
            );
            Evaluated {
                value: outcome.value,
                world: World {
                    scopes: world.scopes,
                    files: outcome.files,
                    sent: world.sent.push(request),
                },
            }
        },
    }
}

/// The scopes after the parameters `params[from..]` are bound to the
/// arguments beside them in `scope`.
pub open spec fn bind_all(
    scopes: Seq<ScopeView>,
    scope: nat,
    params: Seq<Seq<char>>,
    args: Seq<ObjectView>,
    from: nat,
) -> Seq<ScopeView>
    decreases params.len() - from,
{
    if from < params.len() && from < args.len() {
        bind_all(bind(scopes, scope, params[from as int], args[from as int]), scope, params, args, from + 1)
    } else {
        scopes
    }
}

/// The message of the error for a call with the wrong number of arguments.
pub open spec fn arity_message(want: nat, got: nat) -> Seq<char> {
    "wrong number of arguments: want="@ + decimal(want as int) + ", got="@ + decimal(got as int)
}

/// The error for a call of a value that cannot be called.
pub open spec fn not_a_function(callee: ObjectView) -> ObjectView {
    ObjectView::Error("not a function: "@ + object_debug(callee))
}

/// Why a call of the function `callee` with `count` arguments does not run
/// its body, if it does not: the number of arguments differs from that of
/// the parameters, the scope of its declaration is not among the scopes,
/// or the budget of nested calls is used up.
pub open spec fn refusal(callee: ObjectView, count: nat, world: World, fuel: nat) -> Option<
    ObjectView,
> {
    match callee {
        ObjectView::Function { params, body, scope } => {
            if params.len() != count {
                Some(ObjectView::Error(arity_message(params.len(), count)))
            } else if scope >= world.scopes.len() {
                Some(not_a_function(callee))
            } else if fuel == 0 {
                Some(exhausted())
            } else {
                None
            }
        },
        _ => Some(not_a_function(callee)),
    }
}

/// The world in which the body of a function runs: a new scope, the last
/// one, inside the scope `home` of the function's declaration, with the
/// parameters bound to the arguments.
pub open spec fn frame(
    params: Seq<Seq<char>>,
    home: nat,
    args: Seq<ObjectView>,
    world: World,
) -> World {
    with_scopes(
        world,
        bind_all(enclose(world.scopes, home), world.scopes.len(), params, args, 0),
    )
}

/// The value of an expression in `scope`. A call runs the body of a
/// function in its frame, and a `return` on its way out ends there; when
/// the call is over, its scope is discarded unless a function was declared
/// in it. A builtin is asked; a call of anything else is an error.
pub open spec fn eval_expression(
    expression: ExpressionView,
    scope: nat,
    world: World,
    fuel: nat,
    replies: Seq<ReplyView>,
) -> Evaluated
    decreases fuel, 0nat, expression, 0nat,
{
    match expression {
        ExpressionView::Integer(value) => Evaluated { value: ObjectView::Integer(value), world },
        ExpressionView::String(value) => Evaluated { value: ObjectView::String(value), world },
        ExpressionView::Boolean(value) => Evaluated { value: ObjectView::Boolean(value), world },
        ExpressionView::Identifier(name) => Evaluated {
            value: match lookup(world.scopes, scope, name) {
                Some(value) => value,
                None => ObjectView::Error("identifier not found: "@ + name),
            },
            world,
        },
        ExpressionView::Prefix { operator, right } => {
            let operand = eval_expression(*right, scope, world, fuel, replies);
            if operand.value is Error {
                operand
            } else {
                Evaluated { value: prefix_value(operator, operand.value), world: operand.world }
            }
        },
        ExpressionView::Infix { left, operator, right } => {
            let first = eval_expression(*left, scope, world, fuel, replies);
            if first.value is Error {
                first
            } else {
                let second = eval_expression(*right, scope, first.world, fuel, replies);
                if second.value is Error {
                    second
                } else {
                    Evaluated {
                        value: infix_value(operator, first.value, second.value),
                        world: second.world,
                    }
                }
            }
        },
        ExpressionView::Call { function, arguments } => {
            let callee = eval_expression(*function, scope, world, fuel, replies);
            if callee.value is Error {
                callee
            } else {
                let args = eval_arguments(
                    arguments,
                    0,
                    Seq::empty(),
                    scope,
                    callee.world,
                    fuel,
                    replies,
                );
                match args.error {
                    Some(error) => Evaluated { value: error, world: args.world },
                    None => match callee.value {
                        ObjectView::Function { params, body, scope: home } => {
                            match refusal(callee.value, args.values.len(), args.world, fuel) {
                                Some(error) => Evaluated { value: error, world: args.world },
                                None => {
                                    let result = eval_block(
                                        body,
                                        0,
                                        ObjectView::Null,
                                        args.world.scopes.len(),
                                        frame(params, home, args.values, args.world),
                                        (fuel - 1) as nat,
                                        replies,
                                    );
                                    Evaluated {
                                        value: unwrapped(result.value),
                                        world: with_scopes(
                                            result.world,
                                            release(result.world.scopes, args.world.scopes.len()),
                                        ),
                                    }
                                },
                            }
                        },
                        ObjectView::Builtin(builtin) => call_builtin(
                            builtin,
                            args.values,
                            args.world,
                            fuel,
                            replies,
                        ),
                        _ => Evaluated { value: not_a_function(callee.value), world: args.world },
                    },
                }
            }
        },
    }
}

/// The values of `arguments[from..]` after those in `done`, left to right,
/// up to the first error.
pub open spec fn eval_arguments(
    arguments: Seq<ExpressionView>,
    from: nat,
    done: Seq<ObjectView>,
    scope: nat,
    world: World,
    fuel: nat,
    replies: Seq<ReplyView>,
) -> Arguments
    decreases fuel, 0nat, arguments, arguments.len() - from,
{
    if from >= arguments.len() {
        Arguments { values: done, error: None, world }
    } else {
        let first = eval_expression(arguments[from as int], scope, world, fuel, replies);
        if first.value is Error {
            Arguments { values: done, error: Some(first.value), world: first.world }
        } else {
            eval_arguments(
                arguments,
                from + 1,
                done.push(first.value),
                scope,
                first.world,
                fuel,
                replies,
            )
        }
    }
}

/// The value of `statements[from..]` run in order in `scope`, `last` being
/// the value of the statement before: the value of the last statement, or
/// the first `return` or error, after which nothing runs.
pub open spec fn eval_block(
    statements: Seq<StatementView>,
    from: nat,
    last: ObjectView,
    scope: nat,
    world: World,
    fuel: nat,
    replies: Seq<ReplyView>,
) -> Evaluated
    decreases fuel, 1nat, statements, statements.len() - from,
{
    if from >= statements.len() {
        Evaluated { value: last, world }
    } else {
        let first = eval_statement(statements[from as int], scope, world, fuel, replies);
        if is_signal(first.value) {
            first
        } else {
            eval_block(statements, from + 1, first.value, scope, first.world, fuel, replies)
        }
    }
}

/// The value of a statement in `scope`.
pub open spec fn eval_statement(
    statement: StatementView,
    scope: nat,
    world: World,
    fuel: nat,
    replies: Seq<ReplyView>,
) -> Evaluated
    decreases fuel, 1nat, statement, fuel + 1,
{
    match statement {
        StatementView::Expression(expression) => eval_expression(
            expression,
            scope,
            world,
            fuel,
            replies,
        ),
        StatementView::Return(expression) => {
            let value = eval_expression(expression, scope, world, fuel, replies);
            if value.value is Error {
                value
            } else {
                Evaluated {
                    value: ObjectView::ReturnValue(Box::new(value.value)),
                    world: value.world,
                }
            }
        },
        StatementView::Let { name, value } => {
            let bound = eval_expression(value, scope, world, fuel, replies);
            if bound.value is Error {
                bound
            } else {
                Evaluated {
                    value: bound.value,
                    world: with_scopes(
                        bound.world,
                        bind(bound.world.scopes, scope, name, bound.value),
                    ),
                }
            }
        },
        StatementView::Block(statements) => eval_block(
            statements,
            0,
            ObjectView::Null,
            scope,
            world,
            fuel,
            replies,
        ),
        StatementView::If { condition, consequence, alternative } => {
            let tested = eval_expression(condition, scope, world, fuel, replies);
            if tested.value is Error {
                tested
            } else if truthy(tested.value) {
                eval_block(consequence, 0, ObjectView::Null, scope, tested.world, fuel, replies)
            } else {
                match alternative {
                    Some(block) => eval_block(
                        block,
                        0,
                        ObjectView::Null,
                        scope,
                        tested.world,
                        fuel,
                        replies,
                    ),
                    None => Evaluated { value: ObjectView::Null, world: tested.world },
                }
            }
        },
        StatementView::While { condition, body } => eval_while(
            statement,
            scope,
            world,
            fuel,
            fuel,
            replies,
        ),
        StatementView::Function { name, params, body } => {
            let function = ObjectView::Function { params, body, scope };
            Evaluated {
                value: function,
                world: with_scopes(
                    world,
                    bind(capture(world.scopes, scope), scope, name, function),
                ),
            }
        },
    }
}

/// The value of the loop `statement` with `rounds` rounds left to it: the
/// condition is evaluated before each round; the loop ends with `Null` when
/// it does not hold, and with the first error, or `return` from the body.
/// Every round runs in `scope` itself.
pub open spec fn eval_while(
    statement: StatementView,
    scope: nat,
    world: World,
    fuel: nat,
    rounds: nat,
    replies: Seq<ReplyView>,
) -> Evaluated
    decreases fuel, 1nat, statement, rounds,
{
    match statement {
        StatementView::While { condition, body } => {
            let tested = eval_expression(condition, scope, world, fuel, replies);
            if tested.value is Error {
                tested
            } else if !truthy(tested.value) {
                Evaluated { value: ObjectView::Null, world: tested.world }
            } else {
                let round = eval_block(
                    body,
                    0,
                    ObjectView::Null,
                    scope,
                    tested.world,
                    fuel,
                    replies,
                );
                if is_signal(round.value) {
                    round
                } else if rounds == 0 {
                    Evaluated { value: exhausted(), world: round.world }
                } else {
                    eval_while(statement, scope, round.world, fuel, (rounds - 1) as nat, replies)
                }
            }
        },
        _ => Evaluated { value: ObjectView::Null, world },
    }
}

/// The value of a program run in the global scope: that of its last
/// statement, or the first error, or what the first `return` returns.
pub open spec fn eval_program(
    statements: Seq<StatementView>,
    world: World,
    fuel: nat,
    replies: Seq<ReplyView>,
) -> Evaluated {
    let result = eval_block(statements, 0, ObjectView::Null, 0, world, fuel, replies);
    Evaluated { value: unwrapped(result.value), world: result.world }
}

// ---------------------------------------------------------------------------
// Laws
// ---------------------------------------------------------------------------

/// Whether the answers `first` and `second` are the same up to, and not
/// including, the answer number `count`.
pub open spec fn same_answers(first: Seq<ReplyView>, second: Seq<ReplyView>, count: nat) -> bool {
    forall|i: nat| i < count ==> reply_at(first, i) == reply_at(second, i)
}

/// The reading of a line never takes back a request.
pub proof fn lemma_line_uses_answers_in_order(
    file: nat,
    got: Seq<u8>,
    sent: Seq<RequestView>,
    replies: Seq<ReplyView>,
    rounds: nat,
)
    ensures
        read_line(file, got, sent, replies, rounds).sent.len() > sent.len(),
    decreases rounds,
{
    let asked = sent.push(RequestView::ReadByte { file });
    match reply_at(replies, sent.len()) {
        ReplyView::Byte(byte) => {
            if byte != 10 && rounds > 0 {
                lemma_line_uses_answers_in_order(
                    file,
                    got.push(byte),
                    asked,
                    replies,
                    (rounds - 1) as nat,
                );
            }
        },
        _ => {},
    }
}

/// The reading of a line depends on the answers of the host only as far as
/// they are used.
pub proof fn lemma_line_reads_used_answers(
    file: nat,
    got: Seq<u8>,
    sent: Seq<RequestView>,
    first: Seq<ReplyView>,
    second: Seq<ReplyView>,
    rounds: nat,
)
    requires
        same_answers(first, second, read_line(file, got, sent, first, rounds).sent.len()),
    ensures
        read_line(file, got, sent, first, rounds) == read_line(file, got, sent, second, rounds),
    decreases rounds,
{
    let asked = sent.push(RequestView::ReadByte { file });
    lemma_line_uses_answers_in_order(file, got, sent, first, rounds);
    assert(reply_at(first, sent.len()) == reply_at(second, sent.len()));
    match reply_at(first, sent.len()) {
        ReplyView::Byte(byte) => {
            if byte != 10 && rounds > 0 {
                lemma_line_reads_used_answers(
                    file,
                    got.push(byte),
                    asked,
                    first,
                    second,
                    (rounds - 1) as nat,
                );
            }
        },
        _ => {},
    }
}

/// A call of a builtin never takes back a request.
pub proof fn lemma_builtin_uses_answers_in_order(
    builtin: Builtin,
    args: Seq<ObjectView>,
    world: World,
    fuel: nat,
    replies: Seq<ReplyView>,
)
    ensures
        call_builtin(builtin, args, world, fuel, replies).world.sent.len() >= world.sent.len(),
{
    match plan_of(builtin, args, world.files) {
        Plan::Line(file) => {
            lemma_line_uses_answers_in_order(file, Seq::empty(), world.sent, replies, fuel);
        },
        _ => {},
    }
}

/// What a call of a builtin comes to depends on the answers of the host
/// only as far as they are used.
pub proof fn lemma_builtin_reads_used_answers(
    builtin: Builtin,
    args: Seq<ObjectView>,
    world: World,
    fuel: nat,
    first: Seq<ReplyView>,
    second: Seq<ReplyView>,
)
    requires
        same_answers(
            first,
            second,
            call_builtin(builtin, args, world, fuel, first).world.sent.len(),
        ),
    ensures
        call_builtin(builtin, args, world, fuel, first) == call_builtin(
            builtin,
            args,
            world,
            fuel,
            second,
        ),
{
    match plan_of(builtin, args, world.files) {
        Plan::Line(file) => {
            lemma_line_reads_used_answers(file, Seq::empty(), world.sent, first, second, fuel);
        },
        Plan::Ask(request) => {
            assert(reply_at(first, world.sent.len()) == reply_at(second, world.sent.len()));
        },
        _ => {},
    }
}

/// The evaluation of an expression never takes back a request: the number
/// of answers used does not go down.
pub proof fn lemma_expression_uses_answers_in_order(
    expression: ExpressionView,
    scope: nat,
    world: World,
    fuel: nat,
    replies: Seq<ReplyView>,
)
    ensures
        eval_expression(expression, scope, world, fuel, replies).world.sent.len() >= world.sent.len(),
    decreases fuel, 0nat, expression, 0nat,
{
    match expression {
        ExpressionView::Prefix { operator, right } => {
            lemma_expression_uses_answers_in_order(*right, scope, world, fuel, replies);
        },
        ExpressionView::Infix { left, operator, right } => {
            lemma_expression_uses_answers_in_order(*left, scope, world, fuel, replies);
            let first = eval_expression(*left, scope, world, fuel, replies);
            lemma_expression_uses_answers_in_order(*right, scope, first.world, fuel, replies);
        },
        ExpressionView::Call { function, arguments } => {
            lemma_expression_uses_answers_in_order(*function, scope, world, fuel, replies);
            let callee = eval_expression(*function, scope, world, fuel, replies);
            lemma_arguments_use_answers_in_order(
                arguments,
                0,
                Seq::empty(),
                scope,
                callee.world,
                fuel,
                replies,
            );
            let args = eval_arguments(
                arguments,
                0,
                Seq::empty(),
                scope,
                callee.world,
                fuel,
                replies,
            );
            match callee.value {
                ObjectView::Function { params, body, scope: home } => {
                    if fuel > 0 {
                        lemma_block_uses_answers_in_order(
                            body,
                            0,
                            ObjectView::Null,
                            args.world.scopes.len(),
                            frame(params, home, args.values, args.world),
                            (fuel - 1) as nat,
                            replies,
                        );
                    }
                },
                ObjectView::Builtin(builtin) => {
                    lemma_builtin_uses_answers_in_order(
                        builtin,
                        args.values,
                        args.world,
                        fuel,
                        replies,
                    );
                },
                _ => {},
            }
        },
        _ => {},
    }
}

/// The evaluation of the arguments of a call never takes back a request.
pub proof fn lemma_arguments_use_answers_in_order(
    arguments: Seq<ExpressionView>,
    from: nat,
    done: Seq<ObjectView>,
    scope: nat,
    world: World,
    fuel: nat,
    replies: Seq<ReplyView>,
)
    ensures
        eval_arguments(arguments, from, done, scope, world, fuel, replies).world.sent.len()
            >= world.sent.len(),
    decreases fuel, 0nat, arguments, arguments.len() - from,
{
    if from < arguments.len() {
        lemma_expression_uses_answers_in_order(
            arguments[from as int],
            scope,
            world,
            fuel,
            replies,
        );
        let first = eval_expression(arguments[from as int], scope, world, fuel, replies);
        if !(first.value is Error) {
            lemma_arguments_use_answers_in_order(
                arguments,
                from + 1,
                done.push(first.value),
                scope,
                first.world,
                fuel,
                replies,
            );
        }
    }
}

/// The evaluation of a block never takes back a request.
pub proof fn lemma_block_uses_answers_in_order(
    statements: Seq<StatementView>,
    from: nat,
    last: ObjectView,
    scope: nat,
    world: World,
    fuel: nat,
    replies: Seq<ReplyView>,
)
    ensures
        eval_block(statements, from, last, scope, world, fuel, replies).world.sent.len()
            >= world.sent.len(),
    decreases fuel, 1nat, statements, statements.len() - from,
{
    if from < statements.len() {
        lemma_statement_uses_answers_in_order(
            statements[from as int],
            scope,
            world,
            fuel,
            replies,
        );
        let first = eval_statement(statements[from as int], scope, world, fuel, replies);
        if !is_signal(first.value) {
            lemma_block_uses_answers_in_order(
                statements,
                from + 1,
                first.value,
                scope,
                first.world,
                fuel,
                replies,
            );
        }
    }
}

/// The evaluation of a statement never takes back a request.
pub proof fn lemma_statement_uses_answers_in_order(
    statement: StatementView,
    scope: nat,
    world: World,
    fuel: nat,
    replies: Seq<ReplyView>,
)
    ensures
        eval_statement(statement, scope, world, fuel, replies).world.sent.len() >= world.sent.len(),
    decreases fuel, 1nat, statement, fuel + 1,
{
    match statement {
        StatementView::Expression(expression) => {
            lemma_expression_uses_answers_in_order(expression, scope, world, fuel, replies);
        },
        StatementView::Return(expression) => {
            lemma_expression_uses_answers_in_order(expression, scope, world, fuel, replies);
        },
        StatementView::Let { name, value } => {
            lemma_expression_uses_answers_in_order(value, scope, world, fuel, replies);
        },
        StatementView::Block(statements) => {
            lemma_block_uses_answers_in_order(
                statements,
                0,
                ObjectView::Null,
                scope,
                world,
                fuel,
                replies,
            );
        },
        StatementView::If { condition, consequence, alternative } => {
            lemma_expression_uses_answers_in_order(condition, scope, world, fuel, replies);
            let tested = eval_expression(condition, scope, world, fuel, replies);
            lemma_block_uses_answers_in_order(
                consequence,
                0,
                ObjectView::Null,
                scope,
                tested.world,
                fuel,
                replies,
            );
            match alternative {
                Some(block) => {
                    lemma_block_uses_answers_in_order(
                        block,
                        0,
                        ObjectView::Null,
                        scope,
                        tested.world,
                        fuel,
                        replies,
                    );
                },
                None => {},
            }
        },
        StatementView::While { condition, body } => {
            lemma_while_uses_answers_in_order(statement, scope, world, fuel, fuel, replies);
        },
        StatementView::Function { name, params, body } => {},
    }
}

/// The evaluation of a loop never takes back a request.
pub proof fn lemma_while_uses_answers_in_order(
    statement: StatementView,
    scope: nat,
    world: World,
    fuel: nat,
    rounds: nat,
    replies: Seq<ReplyView>,
)
    ensures
        eval_while(statement, scope, world, fuel, rounds, replies).world.sent.len() >= world.sent.len(),
    decreases fuel, 1nat, statement, rounds,
{
    match statement {
        StatementView::While { condition, body } => {
            lemma_expression_uses_answers_in_order(condition, scope, world, fuel, replies);
            let tested = eval_expression(condition, scope, world, fuel, replies);
            if !(tested.value is Error) && truthy(tested.value) {
                lemma_block_uses_answers_in_order(
                    body,
                    0,
                    ObjectView::Null,
                    scope,
                    tested.world,
                    fuel,
                    replies,
                );
                let round = eval_block(
                    body,
                    0,
                    ObjectView::Null,
                    scope,
                    tested.world,
                    fuel,
                    replies,
                );
                if !is_signal(round.value) && rounds > 0 {
                    lemma_while_uses_answers_in_order(
                        statement,
                        scope,
                        round.world,
                        fuel,
                        (rounds - 1) as nat,
                        replies,
                    );
                }
            }
        },
        _ => {},
    }
}

/// The value of an expression depends on the answers of the host only as
/// far as they are used: answers that are the same up to the last one used
/// give the same value and the same world.
pub proof fn lemma_expression_reads_used_answers(
    expression: ExpressionView,
    scope: nat,
    world: World,
    fuel: nat,
    first: Seq<ReplyView>,
    second: Seq<ReplyView>,
)
    requires
        same_answers(
            first,
            second,
            eval_expression(expression, scope, world, fuel, first).world.sent.len(),
        ),
    ensures
        eval_expression(expression, scope, world, fuel, first) == eval_expression(
            expression,
            scope,
            world,
            fuel,
            second,
        ),
    decreases fuel, 0nat, expression, 0nat,
{
    match expression {
        ExpressionView::Prefix { operator, right } => {
            lemma_expression_reads_used_answers(*right, scope, world, fuel, first, second);
        },
        ExpressionView::Infix { left, operator, right } => {
            let one = eval_expression(*left, scope, world, fuel, first);
            if !(one.value is Error) {
                lemma_expression_uses_answers_in_order(*right, scope, one.world, fuel, first);
            }
            lemma_expression_reads_used_answers(*left, scope, world, fuel, first, second);
            if !(one.value is Error) {
                lemma_expression_reads_used_answers(*right, scope, one.world, fuel, first, second);
            }
        },
        ExpressionView::Call { function, arguments } => {
            let callee = eval_expression(*function, scope, world, fuel, first);
            if !(callee.value is Error) {
                let args = eval_arguments(
                    arguments,
                    0,
                    Seq::empty(),
                    scope,
                    callee.world,
                    fuel,
                    first,
                );
                lemma_arguments_use_answers_in_order(
                    arguments,
                    0,
                    Seq::empty(),
                    scope,
                    callee.world,
                    fuel,
                    first,
                );
                let runs = args.error is None && callee.value is Function && refusal(
                    callee.value,
                    args.values.len(),
                    args.world,
                    fuel,
                ) is None;
                let asks = args.error is None && callee.value is Builtin;
                if asks {
                    lemma_builtin_uses_answers_in_order(
                        callee.value->Builtin_0,
                        args.values,
                        args.world,
                        fuel,
                        first,
                    );
                }
                if runs {
                    lemma_block_uses_answers_in_order(
                        callee.value->body,
                        0,
                        ObjectView::Null,
                        args.world.scopes.len(),
                        frame(
                            callee.value->params,
                            callee.value->scope,
                            args.values,
                            args.world,
                        ),
                        (fuel - 1) as nat,
                        first,
                    );
                }
                lemma_expression_reads_used_answers(*function, scope, world, fuel, first, second);
                lemma_arguments_read_used_answers(
                    arguments,
                    0,
                    Seq::empty(),
                    scope,
                    callee.world,
                    fuel,
                    first,
                    second,
                );
                if asks {
                    lemma_builtin_reads_used_answers(
                        callee.value->Builtin_0,
                        args.values,
                        args.world,
                        fuel,
                        first,
                        second,
                    );
                }
                if runs {
                    lemma_block_reads_used_answers(
                        callee.value->body,
                        0,
                        ObjectView::Null,
                        args.world.scopes.len(),
                        frame(
                            callee.value->params,
                            callee.value->scope,
                            args.values,
                            args.world,
                        ),
                        (fuel - 1) as nat,
                        first,
                        second,
                    );
                }
            } else {
                lemma_expression_reads_used_answers(*function, scope, world, fuel, first, second);
            }
        },
        _ => {},
    }
}

/// The values of the arguments of a call depend on the answers of the host
/// only as far as they are used.
pub proof fn lemma_arguments_read_used_answers(
    arguments: Seq<ExpressionView>,
    from: nat,
    done: Seq<ObjectView>,
    scope: nat,
    world: World,
    fuel: nat,
    first: Seq<ReplyView>,
    second: Seq<ReplyView>,
)
    requires
        same_answers(
            first,
            second,
            eval_arguments(arguments, from, done, scope, world, fuel, first).world.sent.len(),
        ),
    ensures
        eval_arguments(arguments, from, done, scope, world, fuel, first) == eval_arguments(
            arguments,
            from,
            done,
            scope,
            world,
            fuel,
            second,
        ),
    decreases fuel, 0nat, arguments, arguments.len() - from,
{
    if from < arguments.len() {
        let one = eval_expression(arguments[from as int], scope, world, fuel, first);
        if !(one.value is Error) {
            lemma_arguments_use_answers_in_order(
                arguments,
                from + 1,
                done.push(one.value),
                scope,
                one.world,
                fuel,
                first,
            );
        }
        lemma_expression_reads_used_answers(
            arguments[from as int],
            scope,
            world,
            fuel,
            first,
            second,
        );
        if !(one.value is Error) {
            lemma_arguments_read_used_answers(
                arguments,
                from + 1,
                done.push(one.value),
                scope,
                one.world,
                fuel,
                first,
                second,
            );
        }
    }
}

/// The value of a block depends on the answers of the host only as far as
/// they are used.
pub proof fn lemma_block_reads_used_answers(
    statements: Seq<StatementView>,
    from: nat,
    last: ObjectView,
    scope: nat,
    world: World,
    fuel: nat,
    first: Seq<ReplyView>,
    second: Seq<ReplyView>,
)
    requires
        same_answers(
            first,
            second,
            eval_block(statements, from, last, scope, world, fuel, first).world.sent.len(),
        ),
    ensures
        eval_block(statements, from, last, scope, world, fuel, first) == eval_block(
            statements,
            from,
            last,
            scope,
            world,
            fuel,
            second,
        ),
    decreases fuel, 1nat, statements, statements.len() - from,
{
    if from < statements.len() {
        let one = eval_statement(statements[from as int], scope, world, fuel, first);
        if !is_signal(one.value) {
            lemma_block_uses_answers_in_order(
                statements,
                from + 1,
                one.value,
                scope,
                one.world,
                fuel,
                first,
            );
        }
        lemma_statement_reads_used_answers(
            statements[from as int],
            scope,
            world,
            fuel,
            first,
            second,
        );
        if !is_signal(one.value) {
            lemma_block_reads_used_answers(
                statements,
                from + 1,
                one.value,
                scope,
                one.world,
                fuel,
                first,
                second,
            );
        }
    }
}

/// The value of a statement depends on the answers of the host only as far
/// as they are used.
pub proof fn lemma_statement_reads_used_answers(
    statement: StatementView,
    scope: nat,
    world: World,
    fuel: nat,
    first: Seq<ReplyView>,
    second: Seq<ReplyView>,
)
    requires
        same_answers(
            first,
            second,
            eval_statement(statement, scope, world, fuel, first).world.sent.len(),
        ),
    ensures
        eval_statement(statement, scope, world, fuel, first) == eval_statement(
            statement,
            scope,
            world,
            fuel,
            second,
        ),
    decreases fuel, 1nat, statement, fuel + 1,
{
    match statement {
        StatementView::Expression(expression) => {
            lemma_expression_reads_used_answers(expression, scope, world, fuel, first, second);
        },
        StatementView::Return(expression) => {
            lemma_expression_reads_used_answers(expression, scope, world, fuel, first, second);
        },
        StatementView::Let { name, value } => {
            lemma_expression_reads_used_answers(value, scope, world, fuel, first, second);
        },
        StatementView::Block(statements) => {
            lemma_block_reads_used_answers(
                statements,
                0,
                ObjectView::Null,
                scope,
                world,
                fuel,
                first,
                second,
            );
        },
        StatementView::If { condition, consequence, alternative } => {
            let tested = eval_expression(condition, scope, world, fuel, first);
            if !(tested.value is Error) {
                if truthy(tested.value) {
                    lemma_block_uses_answers_in_order(
                        consequence,
                        0,
                        ObjectView::Null,
                        scope,
                        tested.world,
                        fuel,
                        first,
                    );
                } else if alternative is Some {
                    lemma_block_uses_answers_in_order(
                        alternative->0,
                        0,
                        ObjectView::Null,
                        scope,
                        tested.world,
                        fuel,
                        first,
                    );
                }
            }
            lemma_expression_reads_used_answers(condition, scope, world, fuel, first, second);
            if !(tested.value is Error) {
                if truthy(tested.value) {
                    lemma_block_reads_used_answers(
                        consequence,
                        0,
                        ObjectView::Null,
                        scope,
                        tested.world,
                        fuel,
                        first,
                        second,
                    );
                } else if alternative is Some {
                    lemma_block_reads_used_answers(
                        alternative->0,
                        0,
                        ObjectView::Null,
                        scope,
                        tested.world,
                        fuel,
                        first,
                        second,
                    );
                }
            }
        },
        StatementView::While { condition, body } => {
            lemma_while_reads_used_answers(statement, scope, world, fuel, fuel, first, second);
        },
        StatementView::Function { name, params, body } => {},
    }
}

/// The value of a loop depends on the answers of the host only as far as
/// they are used.
pub proof fn lemma_while_reads_used_answers(
    statement: StatementView,
    scope: nat,
    world: World,
    fuel: nat,
    rounds: nat,
    first: Seq<ReplyView>,
    second: Seq<ReplyView>,
)
    requires
        same_answers(
            first,
            second,
            eval_while(statement, scope, world, fuel, rounds, first).world.sent.len(),
        ),
    ensures
        eval_while(statement, scope, world, fuel, rounds, first) == eval_while(
            statement,
            scope,
            world,
            fuel,
            rounds,
            second,
        ),
    decreases fuel, 1nat, statement, rounds,
{
    match statement {
        StatementView::While { condition, body } => {
            let tested = eval_expression(condition, scope, world, fuel, first);
            let goes = !(tested.value is Error) && truthy(tested.value);
            let round = eval_block(body, 0, ObjectView::Null, scope, tested.world, fuel, first);
            let again = goes && !is_signal(round.value) && rounds > 0;
            if goes {
                lemma_block_uses_answers_in_order(
                    body,
                    0,
                    ObjectView::Null,
                    scope,
                    tested.world,
                    fuel,
                    first,
                );
            }
            if again {
                lemma_while_uses_answers_in_order(
                    statement,
                    scope,
                    round.world,
                    fuel,
                    (rounds - 1) as nat,
                    first,
                );
            }
            lemma_expression_reads_used_answers(condition, scope, world, fuel, first, second);
            if goes {
                lemma_block_reads_used_answers(
                    body,
                    0,
                    ObjectView::Null,
                    scope,
                    tested.world,
                    fuel,
                    first,
                    second,
                );
            }
            if again {
                lemma_while_reads_used_answers(
                    statement,
                    scope,
                    round.world,
                    fuel,
                    (rounds - 1) as nat,
                    first,
                    second,
                );
            }
        },
        _ => {},
    }
}

/// Evaluation is deterministic, and the host bears on it only through the
/// builtins: two runs of the same program from the same world with the same
/// budget, whose hosts give the same answers for as long as the first run
/// asks, come to the same value and the same world.
pub proof fn lemma_program_reads_used_answers(
    statements: Seq<StatementView>,
    world: World,
    fuel: nat,
    first: Seq<ReplyView>,
    second: Seq<ReplyView>,
)
    requires
        same_answers(first, second, eval_program(statements, world, fuel, first).world.sent.len()),
    ensures
        eval_program(statements, world, fuel, first) == eval_program(
            statements,
            world,
            fuel,
            second,
        ),
{
    lemma_block_reads_used_answers(statements, 0, ObjectView::Null, 0, world, fuel, first, second);
}

/// A program that asks nothing of the host comes to the same value and the
/// same world whatever the host would have answered.
pub proof fn lemma_program_without_requests_ignores_host(
    statements: Seq<StatementView>,
    world: World,
    fuel: nat,
    first: Seq<ReplyView>,
    second: Seq<ReplyView>,
)
    requires
        world.sent.len() == 0,
        eval_program(statements, world, fuel, first).world.sent.len() == 0,
    ensures
        eval_program(statements, world, fuel, first) == eval_program(
            statements,
            world,
            fuel,
            second,
        ),
{
    lemma_program_reads_used_answers(statements, world, fuel, first, second);
}

/// The first statement that comes to an error ends the block with that
/// error, whatever statements follow it.
pub proof fn lemma_error_ends_block(
    statements: Seq<StatementView>,
    from: nat,
    last: ObjectView,
    scope: nat,
    world: World,
    fuel: nat,
    replies: Seq<ReplyView>,
)
    requires
        from < statements.len(),
        eval_statement(statements[from as int], scope, world, fuel, replies).value is Error,
    ensures
        eval_block(statements, from, last, scope, world, fuel, replies) == eval_statement(
            statements[from as int],
            scope,
            world,
            fuel,
            replies,
        ),
{
}

/// A program that begins with a call of a name that is bound nowhere comes
/// to the error that says so, whatever the arguments of the call are and
/// whatever statements follow it; the world stays as it was.
pub proof fn lemma_unbound_call_ends_program(
    name: Seq<char>,
    arguments: Seq<ExpressionView>,
    rest: Seq<StatementView>,
    world: World,
    fuel: nat,
    replies: Seq<ReplyView>,
)
    requires
        lookup(world.scopes, 0, name) is None,
    ensures
        eval_program(
            seq![
                StatementView::Expression(
                    ExpressionView::Call {
                        function: Box::new(ExpressionView::Identifier(name)),
                        arguments,
                    },
                ),
            ] + rest,
            world,
            fuel,
            replies,
        ) == (Evaluated { value: ObjectView::Error("identifier not found: "@ + name), world }),
{
    let call = ExpressionView::Call {
        function: Box::new(ExpressionView::Identifier(name)),
        arguments,
    };
    let program = seq![StatementView::Expression(call)] + rest;
    let callee = eval_expression(ExpressionView::Identifier(name), 0, world, fuel, replies);
    assert(callee.value is Error);
    assert(eval_expression(call, 0, world, fuel, replies) == callee);
    assert(program[0] == StatementView::Expression(call));
    assert(eval_statement(program[0], 0, world, fuel, replies) == callee);
    lemma_error_ends_block(program, 0, ObjectView::Null, 0, world, fuel, replies);
}

/// Where no argument comes to an error, there is one value for each
/// argument.
pub proof fn lemma_one_value_for_each_argument(
    arguments: Seq<ExpressionView>,
    from: nat,
    done: Seq<ObjectView>,
    scope: nat,
    world: World,
    fuel: nat,
    replies: Seq<ReplyView>,
)
    requires
        from <= arguments.len(),
        eval_arguments(arguments, from, done, scope, world, fuel, replies).error is None,
    ensures
        eval_arguments(arguments, from, done, scope, world, fuel, replies).values.len()
            == done.len() + arguments.len() - from,
    decreases arguments.len() - from,
{
    if from < arguments.len() {
        let first = eval_expression(arguments[from as int], scope, world, fuel, replies);
        lemma_one_value_for_each_argument(
            arguments,
            from + 1,
            done.push(first.value),
            scope,
            first.world,
            fuel,
            replies,
        );
    }
}

/// A call of a function with a number of arguments other than the number of
/// its parameters does not run the body: once the callee and the arguments
/// are evaluated, it comes to the error that gives both numbers.
pub proof fn lemma_wrong_arity_is_refused(
    function: ExpressionView,
    arguments: Seq<ExpressionView>,
    scope: nat,
    world: World,
    fuel: nat,
    replies: Seq<ReplyView>,
)
    requires
        eval_expression(function, scope, world, fuel, replies).value is Function,
        eval_arguments(
            arguments,
            0,
            Seq::empty(),
            scope,
            eval_expression(function, scope, world, fuel, replies).world,
            fuel,
            replies,
        ).error is None,
        eval_expression(function, scope, world, fuel, replies).value->params.len()
            != arguments.len(),
    ensures
        eval_expression(
            ExpressionView::Call { function: Box::new(function), arguments },
            scope,
            world,
            fuel,
            replies,
        ) == (Evaluated {
            value: ObjectView::Error(
                arity_message(
                    eval_expression(function, scope, world, fuel, replies).value->params.len(),
                    arguments.len(),
                ),
            ),
            world: eval_arguments(
                arguments,
                0,
                Seq::empty(),
                scope,
                eval_expression(function, scope, world, fuel, replies).world,
                fuel,
                replies,
            ).world,
        }),
{
    let callee = eval_expression(function, scope, world, fuel, replies);
    lemma_one_value_for_each_argument(
        arguments,
        0,
        Seq::empty(),
        scope,
        callee.world,
        fuel,
        replies,
    );
}

/// A declaration is seen afterwards from the scope in which it was made:
/// once its value is evaluated without error, the name is bound to it
/// there. So what a round of a loop declares is seen by the next round and
/// after the loop, because every round runs in the scope of the loop.
pub proof fn lemma_declaration_is_visible(
    name: Seq<char>,
    value: ExpressionView,
    scope: nat,
    world: World,
    fuel: nat,
    replies: Seq<ReplyView>,
)
    requires
        !(eval_expression(value, scope, world, fuel, replies).value is Error),
        scope < eval_expression(value, scope, world, fuel, replies).world.scopes.len(),
    ensures
        lookup(
            eval_statement(
                StatementView::Let { name, value },
                scope,
                world,
                fuel,
                replies,
            ).world.scopes,
            scope,
            name,
        ) == Some(eval_expression(value, scope, world, fuel, replies).value),
{
}

/// Binding in one scope leaves every other scope as it was, and leaves the
/// number of scopes and their enclosing scopes as they were.
pub proof fn lemma_bind_all_touches_one_scope(
    scopes: Seq<ScopeView>,
    scope: nat,
    params: Seq<Seq<char>>,
    args: Seq<ObjectView>,
    from: nat,
)
    ensures
        bind_all(scopes, scope, params, args, from).len() == scopes.len(),
        forall|i: int|
            0 <= i < scopes.len() && i != scope ==> #[trigger] bind_all(
                scopes,
                scope,
                params,
                args,
                from,
            )[i] == scopes[i],
        scope < scopes.len() ==> bind_all(scopes, scope, params, args, from)[scope as int].outer
            == scopes[scope as int].outer,
        forall|name: Seq<char>|
            scope < scopes.len() && !params.contains(name) ==> (#[trigger] bind_all(
                scopes,
                scope,
                params,
                args,
                from,
            )[scope as int].store.contains_key(name) <==> scopes[scope as int].store.contains_key(
                name,
            )),
    decreases params.len() - from,
{
    if from < params.len() && from < args.len() {
        let next = bind(scopes, scope, params[from as int], args[from as int]);
        lemma_bind_all_touches_one_scope(next, scope, params, args, from + 1);
        assert forall|name: Seq<char>| scope < scopes.len() && !params.contains(name) implies (
        #[trigger] bind_all(scopes, scope, params, args, from)[scope as int].store.contains_key(
            name,
        ) <==> scopes[scope as int].store.contains_key(name)) by {
            assert(params.contains(params[from as int]));
        }
    }
}

/// Lexical scoping: in the body of a function, a name that is not one of
/// its parameters is bound to what it is bound to in the scope in which the
/// function was declared, wherever the call is made from.
pub proof fn lemma_body_resolves_in_declaring_scope(
    params: Seq<Seq<char>>,
    home: nat,
    args: Seq<ObjectView>,
    world: World,
    name: Seq<char>,
)
    requires
        chained(world.scopes),
        home < world.scopes.len(),
        !params.contains(name),
    ensures
        lookup(frame(params, home, args, world).scopes, world.scopes.len(), name) == lookup(
            world.scopes,
            home,
            name,
        ),
{
    let inner = world.scopes.len();
    let opened = enclose(world.scopes, home);
    let bound = frame(params, home, args, world).scopes;
    lemma_bind_all_touches_one_scope(opened, inner, params, args, 0);
    assert(!opened[inner as int].store.contains_key(name));
    assert(!bound[inner as int].store.contains_key(name));
    assert(bound[inner as int].outer == Some(home));
    assert forall|i: int| 0 <= i <= home implies world.scopes[i] == bound[i] by {
        assert(opened[i] == world.scopes[i]);
    }
    crate::env::lemma_lookup_ignores_later_scopes(world.scopes, bound, home, name);
}

// ---------------------------------------------------------------------------
// The evaluator
// ---------------------------------------------------------------------------

/// Whether the answers `replies` begin with the answers `answers`.
pub open spec fn agrees(replies: Seq<ReplyView>, answers: Seq<ReplyView>) -> bool {
    &&& answers.len() <= replies.len()
    &&& forall|i: int| 0 <= i < answers.len() ==> replies[i] == answers[i]
}

/// Answers that begin with `middle` begin with whatever `middle` begins
/// with.
pub proof fn lemma_agrees_transitive(
    replies: Seq<ReplyView>,
    middle: Seq<ReplyView>,
    answers: Seq<ReplyView>,
)
    requires
        agrees(replies, middle),
        agrees(middle, answers),
    ensures
        agrees(replies, answers),
{
}

/// A request made of the host, and the answer to it.
pub struct Exchange {
    pub request: RequestView,
    pub reply: ReplyView,
}

/// The evaluator. It holds a budget, which makes every evaluation end; the
/// flags of the files that the program has opened; and a record of what the
/// host has been asked and has answered.
pub struct Interpreter {
    fuel: u64,
    files: Vec<FileState>,
    log: Ghost<Seq<Exchange>>,
}

impl Interpreter {
    /// The budget: how deep calls may nest, how many rounds a loop may run,
    /// and how many bytes a line may hold.
    pub closed spec fn budget(&self) -> nat {
        self.fuel as nat
    }

    /// The flags of the files opened so far, by handle.
    pub closed spec fn files(&self) -> Seq<FileState> {
        self.files@
    }

    /// The answers that the host has given so far, in order.
    pub closed spec fn answers(&self) -> Seq<ReplyView> {
        Seq::new(self.log@.len(), |i: int| self.log@[i].reply)
    }

    /// The requests made of the host so far, in order.
    pub closed spec fn requests(&self) -> Seq<RequestView> {
        Seq::new(self.log@.len(), |i: int| self.log@[i].request)
    }

    /// Every request has had its answer.
    pub proof fn lemma_answered(&self)
        ensures
            self.answers().len() == self.requests().len(),
    {
    }

    /// The world as this evaluator and `env` hold it.
    pub open spec fn world(&self, env: &Environment) -> World {
        World { scopes: env@, files: self.files(), sent: self.requests() }
    }

    /// An evaluator with the largest budget, no file open, and nothing
    /// asked of the host yet.
    pub fn new() -> (interpreter: Interpreter)
        ensures
            interpreter.budget() == u64::MAX,
            interpreter.files() == Seq::<FileState>::empty(),
            interpreter.answers() == Seq::<ReplyView>::empty(),
            interpreter.requests() == Seq::<RequestView>::empty(),
    {
        Interpreter { fuel: u64::MAX, files: Vec::new(), log: Ghost(Seq::empty()) }
    }

    /// An evaluator with the budget `fuel`.
    pub fn with_budget(fuel: u64) -> (interpreter: Interpreter)
        ensures
            interpreter.budget() == fuel,
            interpreter.files() == Seq::<FileState>::empty(),
            interpreter.answers() == Seq::<ReplyView>::empty(),
            interpreter.requests() == Seq::<RequestView>::empty(),
    {
        Interpreter { fuel, files: Vec::new(), log: Ghost(Seq::empty()) }
    }

    /// Whether `object` counts as true in a condition.
    pub fn is_truthy(object: &Object) -> (r: bool)
        ensures
            r == truthy(object@),
    {
        match object {
            Object::Null => false,
            Object::Boolean(value) => *value,
            Object::Integer(value) => *value != 0,
            _ => true,
        }
    }

    /// Whether `object` is an error.
    pub fn is_error(object: &Object) -> (r: bool)
        ensures
            r == object@ is Error,
    {
        match object {
            Object::Error(_) => true,
            _ => false,
        }
    }

    /// Whether `object` is a `return` on its way out, or an error.
    fn stops(object: &Object) -> (r: bool)
        ensures
            r == is_signal(object@),
    {
        match object {
            Object::Error(_) => true,
            Object::ReturnValue(_) => true,
            _ => false,
        }
    }

    /// The value inside a `return` on its way out; any other value as it
    /// is.
    fn unwrap_return(object: Object) -> (r: Object)
        ensures
            r@ == unwrapped(object@),
    {
        match object {
            Object::ReturnValue(inner) => *inner,
            other => other,
        }
    }

    /// Applies a unary operator.
    pub fn eval_prefix_expression(operator: &Token, right: Object) -> (r: Object)
        ensures
            r@ == prefix_value(operator@, right@),
    {
        match operator {
            Token::Minus => match right {
                Object::Integer(value) => Object::Integer(0i64.wrapping_sub(value)),
                _ => Object::Error(
                    joined("unknown operator: -", right.debug_string().as_str()),
                ),
            },
            _ => {
                let mut message = joined("unknown operator: ", operator.debug_string().as_str());
                message.append(right.debug_string().as_str());
                Object::Error(message)
            },
        }
    }

    /// Applies a binary operator to two integers.
    fn eval_integer_infix(operator: &Token, l: i64, r: i64) -> (result: Object)
        ensures
            result@ == integer_infix(operator@, l, r),
    {
        match operator {
            Token::Plus => Object::Integer(l.wrapping_add(r)),
            Token::Minus => Object::Integer(l.wrapping_sub(r)),
            Token::Asterisk => Object::Integer(l.wrapping_mul(r)),
            Token::Slash => {
                if r == 0 {
                    Object::Error(String::from_str("division by zero"))
                } else if l == i64::MIN && r == -1 {
                    Object::Integer(i64::MIN)
                } else {
                    proof {
                        lemma_quotient_in_range(l, r);
                    }
                    Object::Integer(l.checked_div(r).unwrap())
                }
            },
            Token::LessThan => Object::Boolean(l < r),
            Token::GreaterThan => Object::Boolean(l > r),
            Token::Equal => Object::Boolean(l == r),
            Token::NotEqual => Object::Boolean(l != r),
            _ => {
                let mut message = joined(
                    "unknown operator: INTEGER ",
                    operator.debug_string().as_str(),
                );
                message.append(" INTEGER");
                Object::Error(message)
            },
        }
    }

    /// Applies a binary operator.
    pub fn eval_infix_expression(operator: &Token, left: Object, right: Object) -> (r: Object)
        ensures
            r@ == infix_value(operator@, left@, right@),
    {
        match (&left, &right) {
            (Object::Integer(l), Object::Integer(r)) => Self::eval_integer_infix(operator, *l, *r),
            (Object::Boolean(l), Object::Boolean(r)) => match operator {
                Token::Equal => Object::Boolean(*l == *r),
                Token::NotEqual => Object::Boolean(*l != *r),
                _ => {
                    let mut message = joined(
                        "unknown operator: BOOLEAN ",
                        operator.debug_string().as_str(),
                    );
                    message.append(" BOOLEAN");
                    Object::Error(message)
                },
            },
            _ => match operator {
                Token::Equal => Object::Boolean(left == right),
                Token::NotEqual => Object::Boolean(!(left == right)),
                _ => {
                    let mut message = joined("type mismatch: ", left.debug_string().as_str());
                    message.append(" ");
                    message.append(operator.debug_string().as_str());
                    message.append(" ");
                    message.append(right.debug_string().as_str());
                    Object::Error(message)
                },
            },
        }
    }

    /// What is owed of an evaluation that has ended with `value`: whatever
    /// else the host may answer later, the answers given so far make
    /// `outcome` come to `value` and to the world as it now is.
    pub open spec fn computed(
        &self,
        env: &Environment,
        value: ObjectView,
        outcome: spec_fn(Seq<ReplyView>) -> Evaluated,
    ) -> bool {
        forall|replies: Seq<ReplyView>| #[trigger]
            agrees(replies, self.answers()) ==> outcome(replies) == (Evaluated {
                value,
                world: self.world(env),
            })
    }

    /// Evaluates `program` in the global scope of `env`.
    pub fn eval_program<H: Host>(
        &mut self,
        program: &Program,
        env: &mut Environment,
        host: &mut H,
    ) -> (r: Object)
        requires
            old(env).wf(),
        ensures
            final(env).wf(),
            old(env)@.len() <= final(env)@.len(),
            final(self).budget() == old(self).budget(),
            agrees(final(self).answers(), old(self).answers()),
            final(self).computed(
                final(env),
                r@,
                |replies: Seq<ReplyView>|
                    eval_program(
                        program@,
                        old(self).world(old(env)),
                        old(self).budget(),
                        replies,
                    ),
            ),
    {
        proof {
            env.lemma_chained();
        }
        let fuel = self.fuel;
        let result = self.eval_block(&program.statements, 0, env, host, fuel);
        Self::unwrap_return(result)
    }

    /// Evaluates `statements` in order in `scope`, up to the first `return`
    /// or error.
    pub fn eval_block<H: Host>(
        &mut self,
        statements: &Vec<Statement>,
        scope: usize,
        env: &mut Environment,
        host: &mut H,
        fuel: u64,
    ) -> (r: Object)
        requires
            old(env).wf(),
            scope < old(env)@.len(),
        ensures
            final(env).wf(),
            old(env)@.len() <= final(env)@.len(),
            final(self).budget() == old(self).budget(),
            agrees(final(self).answers(), old(self).answers()),
            final(self).computed(
                final(env),
                r@,
                |replies: Seq<ReplyView>|
                    eval_block(
                        statements_view(statements@),
                        0,
                        ObjectView::Null,
                        scope as nat,
                        old(self).world(old(env)),
                        fuel as nat,
                        replies,
                    ),
            ),
        decreases fuel, 2nat, statements, 0nat,
    {
        let ghost start = old(self).world(old(env));
        let ghost all = statements_view(statements@);
        let mut result = Object::Null;
        let mut i: usize = 0;
        while i < statements.len()
            invariant
                i <= statements.len(),
                env.wf(),
                scope < env@.len(),
                old(env)@.len() <= env@.len(),
                self.budget() == old(self).budget(),
                agrees(self.answers(), old(self).answers()),
                all == statements_view(statements@),
                start == old(self).world(old(env)),
                !is_signal(result@),
                forall|replies: Seq<ReplyView>| #[trigger]
                    agrees(replies, self.answers()) ==> eval_block(
                        all,
                        0,
                        ObjectView::Null,
                        scope as nat,
                        start,
                        fuel as nat,
                        replies,
                    ) == eval_block(
                        all,
                        i as nat,
                        result@,
                        scope as nat,
                        self.world(env),
                        fuel as nat,
                        replies,
                    ),
            decreases statements.len() - i,
        {
            let ghost before = self.answers();
            let ghost world = self.world(env);
            let ghost last = result@;
            result = self.eval_statement(&statements[i], scope, env, host, fuel);
            proof {
                lemma_agrees_transitive(self.answers(), before, old(self).answers());
                assert forall|replies: Seq<ReplyView>| #[trigger]
                    agrees(replies, self.answers()) implies eval_block(
                    all,
                    i as nat,
                    last,
                    scope as nat,
                    world,
                    fuel as nat,
                    replies,
                ) == (if is_signal(result@) {
                    Evaluated { value: result@, world: self.world(env) }
                } else {
                    eval_block(
                        all,
                        (i + 1) as nat,
                        result@,
                        scope as nat,
                        self.world(env),
                        fuel as nat,
                        replies,
                    )
                }) by {
                    lemma_agrees_transitive(replies, self.answers(), before);
                    assert(all[i as int] == statements@[i as int]@);
                }
            }
            if Self::stops(&result) {
                proof {
                    assert forall|replies: Seq<ReplyView>| #[trigger]
                        agrees(replies, self.answers()) implies eval_block(
                        all,
                        0,
                        ObjectView::Null,
                        scope as nat,
                        start,
                        fuel as nat,
                        replies,
                    ) == (Evaluated { value: result@, world: self.world(env) }) by {
                        lemma_agrees_transitive(replies, self.answers(), before);
                    }
                }
                return result;
            }
            proof {
                assert forall|replies: Seq<ReplyView>| #[trigger]
                    agrees(replies, self.answers()) implies eval_block(
                    all,
                    0,
                    ObjectView::Null,
                    scope as nat,
                    start,
                    fuel as nat,
                    replies,
                ) == eval_block(
                    all,
                    (i + 1) as nat,
                    result@,
                    scope as nat,
                    self.world(env),
                    fuel as nat,
                    replies,
                ) by {
                    lemma_agrees_transitive(replies, self.answers(), before);
                }
            }
            i += 1;
        }
        result
    }

    /// Evaluates `statement` in `scope`.
    pub fn eval_statement<H: Host>(
        &mut self,
        statement: &Statement,
        scope: usize,
        env: &mut Environment,
        host: &mut H,
        fuel: u64,
    ) -> (r: Object)
        requires
            old(env).wf(),
            scope < old(env)@.len(),
        ensures
            final(env).wf(),
            old(env)@.len() <= final(env)@.len(),
            final(self).budget() == old(self).budget(),
            agrees(final(self).answers(), old(self).answers()),
            final(self).computed(
                final(env),
                r@,
                |replies: Seq<ReplyView>|
                    eval_statement(
                        statement@,
                        scope as nat,
                        old(self).world(old(env)),
                        fuel as nat,
                        replies,
                    ),
            ),
        decreases fuel, 2nat, statement, fuel + 1,
    {
        match statement {
            Statement::Expression(expression) => self.eval_expression(
                expression,
                scope,
                env,
                host,
                fuel,
            ),
            Statement::Return(expression) => {
                let value = self.eval_expression(expression, scope, env, host, fuel);
                if Self::is_error(&value) {
                    return value;
                }
                Object::ReturnValue(Box::new(value))
            },
            Statement::Let { name, value } => {
                let bound = self.eval_expression(value, scope, env, host, fuel);
                if Self::is_error(&bound) {
                    return bound;
                }
                env.set(scope, name.clone(), bound)
            },
            Statement::Block(statements) => self.eval_block(statements, scope, env, host, fuel),
            Statement::If { condition, consequence, alternative } => {
                let tested = self.eval_expression(condition, scope, env, host, fuel);
                if Self::is_error(&tested) {
                    return tested;
                }
                let ghost middle = self.answers();
                if Self::is_truthy(&tested) {
                    let r = self.eval_block(consequence, scope, env, host, fuel);
                    proof {
                        assert forall|replies: Seq<ReplyView>| #[trigger]
                            agrees(replies, self.answers()) implies agrees(replies, middle) by {
                            lemma_agrees_transitive(replies, self.answers(), middle);
                        }
                        lemma_agrees_transitive(self.answers(), middle, old(self).answers());
                    }
                    r
                } else {
                    match alternative {
                        Some(block) => {
                            let r = self.eval_block(block, scope, env, host, fuel);
                            proof {
                                assert forall|replies: Seq<ReplyView>| #[trigger]
                                    agrees(replies, self.answers()) implies agrees(
                                    replies,
                                    middle,
                                ) by {
                                    lemma_agrees_transitive(replies, self.answers(), middle);
                                }
                                lemma_agrees_transitive(
                                    self.answers(),
                                    middle,
                                    old(self).answers(),
                                );
                            }
                            r
                        },
                        None => Object::Null,
                    }
                }
            },
            Statement::While { condition, body } => self.eval_while(
                statement,
                condition,
                body,
                scope,
                env,
                host,
                fuel,
            ),
            Statement::Function { name, params, body } => {
                let function = Object::Function(names_clone(params), statements_clone(body), scope);
                env.capture(scope);
                env.set(scope, name.clone(), function)
            },
        }
    }

    /// Evaluates the loop `statement`, whose parts are `condition` and
    /// `body`, in `scope`.
    fn eval_while<H: Host>(
        &mut self,
        statement: &Statement,
        condition: &Expression,
        body: &Vec<Statement>,
        scope: usize,
        env: &mut Environment,
        host: &mut H,
        fuel: u64,
    ) -> (r: Object)
        requires
            old(env).wf(),
            scope < old(env)@.len(),
            statement@ == (StatementView::While {
                condition: condition@,
                body: statements_view(body@),
            }),
            *statement matches Statement::While { condition: c, body: b } && c == condition && b
                == body,
        ensures
            final(env).wf(),
            old(env)@.len() <= final(env)@.len(),
            final(self).budget() == old(self).budget(),
            agrees(final(self).answers(), old(self).answers()),
            final(self).computed(
                final(env),
                r@,
                |replies: Seq<ReplyView>|
                    eval_while(
                        statement@,
                        scope as nat,
                        old(self).world(old(env)),
                        fuel as nat,
                        fuel as nat,
                        replies,
                    ),
            ),
        decreases fuel, 2nat, statement, fuel,
    {
        let ghost start = old(self).world(old(env));
        let ghost whole = statement@;
        let mut rounds = fuel;
        loop
            invariant
                env.wf(),
                scope < env@.len(),
                old(env)@.len() <= env@.len(),
                self.budget() == old(self).budget(),
                agrees(self.answers(), old(self).answers()),
                start == old(self).world(old(env)),
                rounds <= fuel,
                whole == statement@,
                whole == (StatementView::While {
                    condition: condition@,
                    body: statements_view(body@),
                }),
                *statement matches Statement::While { condition: c, body: b } && c == condition
                    && b == body,
                forall|replies: Seq<ReplyView>| #[trigger]
                    agrees(replies, self.answers()) ==> eval_while(
                        whole,
                        scope as nat,
                        start,
                        fuel as nat,
                        fuel as nat,
                        replies,
                    ) == eval_while(
                        whole,
                        scope as nat,
                        self.world(env),
                        fuel as nat,
                        rounds as nat,
                        replies,
                    ),
            decreases rounds,
        {
            let ghost before = self.answers();
            let ghost world = self.world(env);
            let tested = self.eval_expression(condition, scope, env, host, fuel);
            let ghost middle = self.answers();
            let ghost tested_world = self.world(env);
            proof {
                lemma_agrees_transitive(middle, before, old(self).answers());
            }
            if Self::is_error(&tested) {
                proof {
                    assert forall|replies: Seq<ReplyView>| #[trigger]
                        agrees(replies, self.answers()) implies eval_while(
                        whole,
                        scope as nat,
                        start,
                        fuel as nat,
                        fuel as nat,
                        replies,
                    ) == (Evaluated { value: tested@, world: self.world(env) }) by {
                        lemma_agrees_transitive(replies, self.answers(), before);
                    }
                }
                return tested;
            }
            if !Self::is_truthy(&tested) {
                proof {
                    assert forall|replies: Seq<ReplyView>| #[trigger]
                        agrees(replies, self.answers()) implies eval_while(
                        whole,
                        scope as nat,
                        start,
                        fuel as nat,
                        fuel as nat,
                        replies,
                    ) == (Evaluated { value: ObjectView::Null, world: self.world(env) }) by {
                        lemma_agrees_transitive(replies, self.answers(), before);
                    }
                }
                return Object::Null;
            }
            let round = self.eval_block(body, scope, env, host, fuel);
            proof {
                lemma_agrees_transitive(self.answers(), middle, old(self).answers());
                lemma_agrees_transitive(self.answers(), middle, before);
                assert forall|replies: Seq<ReplyView>| #[trigger]
                    agrees(replies, self.answers()) implies eval_while(
                    whole,
                    scope as nat,
                    world,
                    fuel as nat,
                    rounds as nat,
                    replies,
                ) == (if is_signal(round@) {
                    Evaluated { value: round@, world: self.world(env) }
                } else if rounds == 0 {
                    Evaluated { value: exhausted(), world: self.world(env) }
                } else {
                    eval_while(
                        whole,
                        scope as nat,
                        self.world(env),
                        fuel as nat,
                        (rounds - 1) as nat,
                        replies,
                    )
                }) by {
                    lemma_agrees_transitive(replies, self.answers(), middle);
                    lemma_agrees_transitive(replies, self.answers(), before);
                    let t = eval_expression(
                        condition@,
                        scope as nat,
                        world,
                        fuel as nat,
                        replies,
                    );
                    assert(t == Evaluated { value: tested@, world: tested_world });
                }
                assert forall|replies: Seq<ReplyView>| #[trigger]
                    agrees(replies, self.answers()) implies eval_while(
                    whole,
                    scope as nat,
                    start,
                    fuel as nat,
                    fuel as nat,
                    replies,
                ) == eval_while(
                    whole,
                    scope as nat,
                    world,
                    fuel as nat,
                    rounds as nat,
                    replies,
                ) by {
                    lemma_agrees_transitive(replies, self.answers(), before);
                }
            }
            if Self::stops(&round) {
                return round;
            }
            if rounds == 0 {
                return Object::Error(String::from_str("evaluation budget exhausted"));
            }
            rounds -= 1;
        }
    }

    /// Evaluates `expression` in `scope`.
    pub fn eval_expression<H: Host>(
        &mut self,
        expression: &Expression,
        scope: usize,
        env: &mut Environment,
        host: &mut H,
        fuel: u64,
    ) -> (r: Object)
        requires
            old(env).wf(),
            scope < old(env)@.len(),
        ensures
            final(env).wf(),
            old(env)@.len() <= final(env)@.len(),
            final(self).budget() == old(self).budget(),
            agrees(final(self).answers(), old(self).answers()),
            final(self).computed(
                final(env),
                r@,
                |replies: Seq<ReplyView>|
                    eval_expression(
                        expression@,
                        scope as nat,
                        old(self).world(old(env)),
                        fuel as nat,
                        replies,
                    ),
            ),
        decreases fuel, 1nat, expression, 0nat,
    {
        match expression {
            Expression::Integer(value) => Object::Integer(*value),
            Expression::String(value) => Object::String(value.clone()),
            Expression::Boolean(value) => Object::Boolean(*value),
            Expression::Identifier(name) => match env.get(scope, name.as_str()) {
                Some(value) => value,
                None => Object::Error(joined("identifier not found: ", name.as_str())),
            },
            Expression::Prefix { operator, right } => {
                let operand = self.eval_expression(right, scope, env, host, fuel);
                if Self::is_error(&operand) {
                    return operand;
                }
                Self::eval_prefix_expression(operator, operand)
            },
            Expression::Infix { left, operator, right } => {
                let first = self.eval_expression(left, scope, env, host, fuel);
                if Self::is_error(&first) {
                    return first;
                }
                let ghost middle = self.answers();
                let second = self.eval_expression(right, scope, env, host, fuel);
                proof {
                    lemma_agrees_transitive(self.answers(), middle, old(self).answers());
                    assert forall|replies: Seq<ReplyView>| #[trigger]
                        agrees(replies, self.answers()) implies agrees(replies, middle) by {
                        lemma_agrees_transitive(replies, self.answers(), middle);
                    }
                }
                if Self::is_error(&second) {
                    return second;
                }
                Self::eval_infix_expression(operator, first, second)
            },
            Expression::Call { function, arguments } => {
                let callee = self.eval_expression(function, scope, env, host, fuel);
                if Self::is_error(&callee) {
                    return callee;
                }
                let ghost middle = self.answers();
                let ghost callee_world = self.world(env);
                let args = self.eval_arguments(arguments, scope, env, host, fuel);
                let ghost late = self.answers();
                let ghost args_world = self.world(env);
                proof {
                    lemma_agrees_transitive(late, middle, old(self).answers());
                    assert forall|replies: Seq<ReplyView>| #[trigger]
                        agrees(replies, late) implies agrees(replies, middle) by {
                        lemma_agrees_transitive(replies, late, middle);
                    }
                }
                match args {
                    Err(error) => error,
                    Ok(values) => {
                        let r = self.apply(callee, values, env, host, fuel);
                        proof {
                            lemma_agrees_transitive(self.answers(), late, old(self).answers());
                            assert forall|replies: Seq<ReplyView>| #[trigger]
                                agrees(replies, self.answers()) implies agrees(replies, late)
                                && agrees(replies, middle) by {
                                lemma_agrees_transitive(replies, self.answers(), late);
                                lemma_agrees_transitive(replies, late, middle);
                            }
                        }
                        r
                    },
                }
            },
        }
    }

    /// Evaluates the arguments of a call from left to right, up to the
    /// first error.
    fn eval_arguments<H: Host>(
        &mut self,
        arguments: &Vec<Expression>,
        scope: usize,
        env: &mut Environment,
        host: &mut H,
        fuel: u64,
    ) -> (r: Result<Vec<Object>, Object>)
        requires
            old(env).wf(),
            scope < old(env)@.len(),
        ensures
            final(env).wf(),
            old(env)@.len() <= final(env)@.len(),
            final(self).budget() == old(self).budget(),
            agrees(final(self).answers(), old(self).answers()),
            forall|replies: Seq<ReplyView>| #[trigger]
                agrees(replies, final(self).answers()) ==> ({
                    let outcome = eval_arguments(
                        expressions_view(arguments@),
                        0,
                        Seq::empty(),
                        scope as nat,
                        old(self).world(old(env)),
                        fuel as nat,
                        replies,
                    );
                    &&& outcome.world == final(self).world(final(env))
                    &&& match r {
                        Ok(values) => outcome.error is None && outcome.values == objects_view(
                            values@,
                        ),
                        Err(error) => outcome.error == Some(error@),
                    }
                }),
        decreases fuel, 1nat, arguments, 0nat,
    {
        let ghost start = old(self).world(old(env));
        let ghost all = expressions_view(arguments@);
        let mut values: Vec<Object> = Vec::new();
        let mut i: usize = 0;
        assert(objects_view(values@) =~= Seq::<ObjectView>::empty());
        while i < arguments.len()
            invariant
                i <= arguments.len(),
                env.wf(),
                scope < env@.len(),
                old(env)@.len() <= env@.len(),
                self.budget() == old(self).budget(),
                agrees(self.answers(), old(self).answers()),
                all == expressions_view(arguments@),
                start == old(self).world(old(env)),
                forall|replies: Seq<ReplyView>| #[trigger]
                    agrees(replies, self.answers()) ==> eval_arguments(
                        all,
                        0,
                        Seq::empty(),
                        scope as nat,
                        start,
                        fuel as nat,
                        replies,
                    ) == eval_arguments(
                        all,
                        i as nat,
                        objects_view(values@),
                        scope as nat,
                        self.world(env),
                        fuel as nat,
                        replies,
                    ),
            decreases arguments.len() - i,
        {
            let ghost before = self.answers();
            let ghost world = self.world(env);
            let ghost done = objects_view(values@);
            let value = self.eval_expression(&arguments[i], scope, env, host, fuel);
            proof {
                lemma_agrees_transitive(self.answers(), before, old(self).answers());
                assert(all[i as int] == arguments@[i as int]@);
                crate::env::lemma_objects_push(values@, value);
                assert forall|replies: Seq<ReplyView>| #[trigger]
                    agrees(replies, self.answers()) implies eval_arguments(
                    all,
                    0,
                    Seq::empty(),
                    scope as nat,
                    start,
                    fuel as nat,
                    replies,
                ) == (if value@ is Error {
                    Arguments { values: done, error: Some(value@), world: self.world(env) }
                } else {
                    eval_arguments(
                        all,
                        (i + 1) as nat,
                        done.push(value@),
                        scope as nat,
                        self.world(env),
                        fuel as nat,
                        replies,
                    )
                }) by {
                    lemma_agrees_transitive(replies, self.answers(), before);
                }
            }
            if Self::is_error(&value) {
                return Err(value);
            }
            values.push(value);
            i += 1;
        }
        Ok(values)
    }

    /// Calls `callee` with the arguments `args`.
    fn apply<H: Host>(
        &mut self,
        callee: Object,
        args: Vec<Object>,
        env: &mut Environment,
        host: &mut H,
        fuel: u64,
    ) -> (r: Object)
        requires
            old(env).wf(),
        ensures
            final(env).wf(),
            old(env)@.len() <= final(env)@.len(),
            final(self).budget() == old(self).budget(),
            agrees(final(self).answers(), old(self).answers()),
            final(self).computed(
                final(env),
                r@,
                |replies: Seq<ReplyView>|
                    match callee@ {
                        ObjectView::Function { params, body, scope: home } => {
                            match refusal(
                                callee@,
                                args@.len(),
                                old(self).world(old(env)),
                                fuel as nat,
                            ) {
                                Some(error) => Evaluated {
                                    value: error,
                                    world: old(self).world(old(env)),
                                },
                                None => {
                                    let result = eval_block(
                                        body,
                                        0,
                                        ObjectView::Null,
                                        old(env)@.len(),
                                        frame(
                                            params,
                                            home,
                                            objects_view(args@),
                                            old(self).world(old(env)),
                                        ),
                                        (fuel - 1) as nat,
                                        replies,
                                    );
                                    Evaluated {
                                        value: unwrapped(result.value),
                                        world: with_scopes(
                                            result.world,
                                            release(result.world.scopes, old(env)@.len()),
                                        ),
                                    }
                                },
                            }
                        },
                        ObjectView::Builtin(builtin) => call_builtin(
                            builtin,
                            objects_view(args@),
                            old(self).world(old(env)),
                            fuel as nat,
                            replies,
                        ),
                        _ => Evaluated {
                            value: not_a_function(callee@),
                            world: old(self).world(old(env)),
                        },
                    },
            ),
        decreases fuel, 0nat, callee, 0nat,
    {
        match callee {
            Object::Function(params, body, home) => {
                if params.len() != args.len() {
                    let mut message = joined(
                        "wrong number of arguments: want=",
                        count_to_string(params.len()).as_str(),
                    );
                    message.append(", got=");
                    message.append(count_to_string(args.len()).as_str());
                    return Object::Error(message);
                }
                if home >= env.len() {
                    return Object::Error(
                        joined(
                            "not a function: ",
                            Object::Function(params, body, home).debug_string().as_str(),
                        ),
                    );
                }
                if fuel == 0 {
                    return Object::Error(String::from_str("evaluation budget exhausted"));
                }
                let inner = env.new_enclosed(home);
                Self::bind_parameters(env, inner, &params, &args);
                let result = self.eval_block(&body, inner, env, host, fuel - 1);
                env.release(inner);
                Self::unwrap_return(result)
            },
            Object::Builtin(builtin) => self.call_builtin(builtin, args, env, host, fuel),
            other => Object::Error(joined("not a function: ", other.debug_string().as_str())),
        }
    }

    /// Binds each of `params` to the argument beside it in `scope`.
    fn bind_parameters(
        env: &mut Environment,
        scope: usize,
        params: &Vec<String>,
        args: &Vec<Object>,
    )
        requires
            old(env).wf(),
            scope < old(env)@.len(),
            params.len() == args.len(),
        ensures
            final(env).wf(),
            final(env)@.len() == old(env)@.len(),
            final(env)@ == bind_all(
                old(env)@,
                scope as nat,
                strings_view(params@),
                objects_view(args@),
                0,
            ),
    {
        let mut k: usize = 0;
        while k < params.len()
            invariant
                k <= params.len(),
                params.len() == args.len(),
                env.wf(),
                env@.len() == old(env)@.len(),
                scope < env@.len(),
                bind_all(
                    old(env)@,
                    scope as nat,
                    strings_view(params@),
                    objects_view(args@),
                    0,
                ) == bind_all(
                    env@,
                    scope as nat,
                    strings_view(params@),
                    objects_view(args@),
                    k as nat,
                ),
            decreases params.len() - k,
        {
            env.insert(scope, params[k].clone(), object_clone(&args[k]));
            k += 1;
        }
    }

    /// Calls the builtin `builtin` with `args`: asks the host what the
    /// builtin asks, and returns what the builtin makes of the answer.
    fn call_builtin<H: Host>(
        &mut self,
        builtin: Builtin,
        args: Vec<Object>,
        env: &Environment,
        host: &mut H,
        fuel: u64,
    ) -> (r: Object)
        ensures
            final(self).budget() == old(self).budget(),
            agrees(final(self).answers(), old(self).answers()),
            final(self).computed(
                env,
                r@,
                |replies: Seq<ReplyView>|
                    call_builtin(
                        builtin,
                        objects_view(args@),
                        old(self).world(env),
                        fuel as nat,
                        replies,
                    ),
            ),
    {
        match plan(builtin, &args, &self.files) {
            Planned::Return(value) => value,
            Planned::Ask(request) => {
                let reply = host.perform(&request);
                proof {
                    self.log@ = self.log@.push(Exchange { request: request@, reply: reply@ });
                    assert(self.answers() =~= old(self).answers().push(reply@));
                    assert(self.requests() =~= old(self).requests().push(request@));
                }
                answer(builtin, &request, &mut self.files, reply)
            },
            Planned::Line(file) => {
                let bytes = self.read_line(file, host, fuel);
                answer_line(&mut self.files, file, &bytes.0, bytes.1)
            },
        }
    }

    /// Reads a line from `file`: asks the host for one byte after the other,
    /// up to and including a newline, or up to the end of the file, or up to
    /// a failure.
    fn read_line<H: Host>(&mut self, file: usize, host: &mut H, fuel: u64) -> (r: (
        Vec<u8>,
        LineStatus,
    ))
        ensures
            final(self).budget() == old(self).budget(),
            final(self).files() == old(self).files(),
            agrees(final(self).answers(), old(self).answers()),
            forall|replies: Seq<ReplyView>| #[trigger]
                agrees(replies, final(self).answers()) ==> read_line(
                    file as nat,
                    Seq::empty(),
                    old(self).requests(),
                    replies,
                    fuel as nat,
                ) == (LineRead { bytes: r.0@, end: r.1@, sent: final(self).requests() }),
    {
        let ghost start = self.requests();
        let mut bytes: Vec<u8> = Vec::new();
        let mut status = LineStatus::Exhausted;
        let mut rounds = fuel;
        loop
            invariant_except_break
                forall|replies: Seq<ReplyView>| #[trigger]
                    agrees(replies, self.answers()) ==> read_line(
                        file as nat,
                        Seq::empty(),
                        start,
                        replies,
                        fuel as nat,
                    ) == read_line(file as nat, bytes@, self.requests(), replies, rounds as nat),
            invariant
                self.budget() == old(self).budget(),
                self.files() == old(self).files(),
                agrees(self.answers(), old(self).answers()),
                start == old(self).requests(),
            ensures
                forall|replies: Seq<ReplyView>| #[trigger]
                    agrees(replies, self.answers()) ==> read_line(
                        file as nat,
                        Seq::empty(),
                        start,
                        replies,
                        fuel as nat,
                    ) == (LineRead { bytes: bytes@, end: status@, sent: self.requests() }),
            decreases rounds,
        {
            let ghost before = self.answers();
            let ghost sent = self.requests();
            let ghost got = bytes@;
            let request = Request::ReadByte { file };
            let reply = host.perform(&request);
            proof {
                self.log@ = self.log@.push(Exchange { request: request@, reply: reply@ });
                assert(self.answers() =~= before.push(reply@));
                assert(self.requests() =~= sent.push(request@));
                lemma_agrees_transitive(self.answers(), before, old(self).answers());
                assert forall|replies: Seq<ReplyView>| #[trigger]
                    agrees(replies, self.answers()) implies agrees(replies, before) && reply_at(
                    replies,
                    sent.len(),
                ) == reply@ by {
                    lemma_agrees_transitive(replies, self.answers(), before);
                    assert(replies[before.len() as int] == self.answers()[before.len() as int]);
                }
            }
            match reply {
                Reply::Byte(byte) => {
                    bytes.push(byte);
                    if byte == 10 {
                        status = LineStatus::Newline;
                        break ;
                    }
                    if rounds == 0 {
                        status = LineStatus::Exhausted;
                        break ;
                    }
                    rounds -= 1;
                },
                Reply::End => {
                    status = LineStatus::End;
                    break ;
                },
                Reply::Failed(why) => {
                    status = LineStatus::Failed(why);
                    break ;
                },
                _ => {
                    status = LineStatus::Unexpected;
                    break ;
                },
            }
        }
        (bytes, status)
    }
}

} // verus!
