use minic::env::{Environment, Object};
use minic::interpreter::Interpreter;
use minic::parser::Parser;
use minic::stdlib::{bootstrap, Host, Reply, Request};
use minic::token::Lexer;

/// A host that records what is printed and answers from a script.
struct Script {
    printed: String,
    answers: Vec<Reply>,
    asked: Vec<String>,
}

impl Script {
    fn new() -> Script {
        Script { printed: String::new(), answers: Vec::new(), asked: Vec::new() }
    }

    fn with(answers: Vec<Reply>) -> Script {
        let mut reversed = answers;
        reversed.reverse();
        Script { printed: String::new(), answers: reversed, asked: Vec::new() }
    }
}

impl Host for Script {
    fn perform(&mut self, request: &Request) -> Reply {
        self.asked.push(format!("{:?}", request));
        if let Request::Print(text) = request {
            self.printed.push_str(text);
        }
        match self.answers.pop() {
            Some(answer) => answer,
            None => Reply::Done,
        }
    }
}

fn run_with(source: &str, host: &mut Script) -> Object {
    let mut parser = Parser::new(Lexer::new(source));
    let program = parser.parse_program();
    assert!(parser.errors.is_empty(), "parser errors: {:?}", parser.errors);
    let mut env = bootstrap();
    let mut interpreter = Interpreter::new();
    interpreter.eval_program(&program, &mut env, host)
}

fn run(source: &str) -> Object {
    let mut host = Script::new();
    run_with(source, &mut host)
}

#[test]
fn precedence_of_product_over_sum() {
    assert_eq!(run("5 + 3 * 2"), Object::Integer(11));
    assert_eq!(run("(5 + 3) * 2"), Object::Integer(16));
}

#[test]
fn same_precedence_associates_to_the_left() {
    assert_eq!(run("10 - 3 - 2"), Object::Integer(5));
    assert_eq!(run("100 / 10 / 5"), Object::Integer(2));
}

#[test]
fn function_call_returns_sum() {
    assert_eq!(run("int add(int a, int b) { return a + b; } add(2, 3)"), Object::Integer(5));
}

#[test]
fn closure_resolves_against_defining_scope() {
    let source = "int x = 10; \
                  int outer() { int x = 1; int inner() { return x; } return inner; } \
                  int f = outer(); \
                  int caller() { int x = 99; return f(); } \
                  caller()";
    assert_eq!(run(source), Object::Integer(1));
}

#[test]
fn function_sees_globals_not_callers_locals() {
    let source = "int x = 7; \
                  int get() { return x; } \
                  int caller() { int x = 5; return get(); } \
                  caller()";
    assert_eq!(run(source), Object::Integer(7));
}

#[test]
fn loop_mutation_is_visible_after_the_loop() {
    assert_eq!(run("int i = 0; while (i < 3) { int i = i + 1; } i"), Object::Integer(3));
}

#[test]
fn undefined_function_is_an_error_whatever_follows() {
    let expected = Object::Error("identifier not found: undefined_fn".to_string());
    assert_eq!(run("undefined_fn()"), expected);
    assert_eq!(run("undefined_fn(); int x = 1; x + 1; x"), expected);
    assert_eq!(run("undefined_fn(); int x = 1; while (x < 3) { int x = x + 1; } 5"), expected);
}

#[test]
fn wrong_number_of_arguments() {
    assert_eq!(
        run("int add(int a, int b) { return a + b; } add(1)"),
        Object::Error("wrong number of arguments: want=2, got=1".to_string())
    );
}

#[test]
fn evaluation_is_repeatable() {
    let source = "int fact(int n) { if (n < 2) { return 1; } return n * fact(n - 1); } fact(10)";
    let mut parser = Parser::new(Lexer::new(source));
    let program = parser.parse_program();
    let mut first_host = Script::new();
    let mut first_env = bootstrap();
    let first = Interpreter::new().eval_program(&program, &mut first_env, &mut first_host);
    let mut second_host = Script::new();
    let mut second_env = bootstrap();
    let second = Interpreter::new().eval_program(&program, &mut second_env, &mut second_host);
    assert_eq!(first, Object::Integer(3628800));
    assert_eq!(first, second);
    assert!(first_host.asked.is_empty());
    assert!(second_host.asked.is_empty());
    assert_eq!(first_env.len(), second_env.len());
}

#[test]
fn integer_arithmetic_and_comparison() {
    assert_eq!(run("7 / 2"), Object::Integer(3));
    assert_eq!(run("-7 / 2"), Object::Integer(-3));
    assert_eq!(run("7 / -2"), Object::Integer(-3));
    assert_eq!(run("-7 / -2"), Object::Integer(3));
    assert_eq!(run("2 - 5"), Object::Integer(-3));
    assert_eq!(run("1 < 2"), Object::Boolean(true));
    assert_eq!(run("1 > 2"), Object::Boolean(false));
    assert_eq!(run("3 == 3"), Object::Boolean(true));
    assert_eq!(run("3 != 3"), Object::Boolean(false));
}

#[test]
fn division_by_zero_is_an_error() {
    assert_eq!(run("1 / 0"), Object::Error("division by zero".to_string()));
}

#[test]
fn arithmetic_wraps_around() {
    assert_eq!(run("9223372036854775807 + 1"), Object::Integer(i64::MIN));
    assert_eq!(run("(-9223372036854775807 - 1) / -1"), Object::Integer(i64::MIN));
    assert_eq!(run("-(-9223372036854775807 - 1)"), Object::Integer(i64::MIN));
    assert_eq!(run("4611686018427387904 * 2"), Object::Integer(i64::MIN));
}

#[test]
fn boolean_operators() {
    assert_eq!(run("true == true"), Object::Boolean(true));
    assert_eq!(run("true != false"), Object::Boolean(true));
    assert_eq!(
        run("true + false"),
        Object::Error("unknown operator: BOOLEAN Plus BOOLEAN".to_string())
    );
}

#[test]
fn mixed_operands() {
    assert_eq!(run("1 == true"), Object::Boolean(false));
    assert_eq!(run("\"a\" == \"a\""), Object::Boolean(true));
    assert_eq!(run("\"a\" != \"b\""), Object::Boolean(true));
    assert_eq!(run("null == null"), Object::Boolean(true));
    assert_eq!(
        run("\"a\" + 1"),
        Object::Error("type mismatch: String(\"a\") Plus Integer(1)".to_string())
    );
    assert_eq!(
        run("1 < true"),
        Object::Error("type mismatch: Integer(1) LessThan Boolean(true)".to_string())
    );
}

#[test]
fn builtins_never_equal_themselves() {
    assert_eq!(run("puts == puts"), Object::Boolean(false));
    assert_eq!(run("puts != puts"), Object::Boolean(true));
}

#[test]
fn functions_compare_by_parameters_and_body() {
    let source = "int make() { int f(int a) { return a; } return f; } make() == make()";
    assert_eq!(run(source), Object::Boolean(true));
}

#[test]
fn unary_minus() {
    assert_eq!(run("-5"), Object::Integer(-5));
    assert_eq!(run("-5 + 10"), Object::Integer(5));
    assert_eq!(run("--5"), Object::Integer(5));
    assert_eq!(run("-true"), Object::Error("unknown operator: -Boolean(true)".to_string()));
    assert_eq!(run("-\"x\""), Object::Error("unknown operator: -String(\"x\")".to_string()));
}

#[test]
fn calling_what_is_no_function() {
    assert_eq!(run("int x = 5; x()"), Object::Error("not a function: Integer(5)".to_string()));
    assert_eq!(run("null()"), Object::Error("not a function: Null".to_string()));
}

#[test]
fn unknown_identifier() {
    assert_eq!(run("y"), Object::Error("identifier not found: y".to_string()));
}

#[test]
fn a_bare_equals_sign_binds_nothing() {
    let source = "int i = 0; while (i < 3) { i = i + 1; } i";
    let mut parser = Parser::new(Lexer::new(source));
    let program = parser.parse_program();
    assert!(parser.errors.is_empty());
    let mut env = bootstrap();
    let mut host = Script::new();
    let result = Interpreter::with_budget(100).eval_program(&program, &mut env, &mut host);
    assert_eq!(result, Object::Error("evaluation budget exhausted".to_string()));
    assert_eq!(env.get(0, "i"), Some(Object::Integer(0)));
}

#[test]
fn error_in_left_operand_comes_first() {
    assert_eq!(run("a + b"), Object::Error("identifier not found: a".to_string()));
}

#[test]
fn error_in_argument_stops_the_call() {
    let mut host = Script::new();
    let result = run_with("puts(missing, puts(1))", &mut host);
    assert_eq!(result, Object::Error("identifier not found: missing".to_string()));
    assert!(host.asked.is_empty());
}

#[test]
fn if_and_else() {
    assert_eq!(run("if (1 < 2) { 10 } else { 20 }"), Object::Integer(10));
    assert_eq!(run("if (1 > 2) { 10 } else { 20 }"), Object::Integer(20));
    assert_eq!(run("if (1 > 2) { 10 }"), Object::Null);
    assert_eq!(run("if (nothing) { 10 }"), Object::Error("identifier not found: nothing".to_string()));
}

#[test]
fn truthiness() {
    assert_eq!(run("if (0) { 1 } else { 2 }"), Object::Integer(2));
    assert_eq!(run("if (5) { 1 } else { 2 }"), Object::Integer(1));
    assert_eq!(run("if (null) { 1 } else { 2 }"), Object::Integer(2));
    assert_eq!(run("if (false) { 1 } else { 2 }"), Object::Integer(2));
    assert_eq!(run("if (\"\") { 1 } else { 2 }"), Object::Integer(1));
    assert!(Interpreter::is_truthy(&Object::Integer(-1)));
    assert!(!Interpreter::is_truthy(&Object::Null));
    assert!(Interpreter::is_truthy(&Object::Error("e".to_string())));
}

#[test]
fn return_ends_the_program() {
    assert_eq!(run("return 5; 6"), Object::Integer(5));
    assert_eq!(run("if (true) { return 1; } 2"), Object::Integer(1));
}

#[test]
fn return_inside_loop_leaves_the_function() {
    let source = "int first() { int i = 0; while (true) { int i = i + 1; if (i == 3) { return i; } } return 0; } first()";
    assert_eq!(run(source), Object::Integer(3));
}

#[test]
fn function_without_return_gives_last_value() {
    assert_eq!(run("int f() { 1; 2 } f()"), Object::Integer(2));
    assert_eq!(run("int f() { } f()"), Object::Null);
    assert_eq!(run("while (false) { }"), Object::Null);
}

#[test]
fn let_shadows_the_outer_binding() {
    let source = "int x = 1; int f() { int x = 2; return x; } f() + x";
    assert_eq!(run(source), Object::Integer(3));
}

#[test]
fn recursion_uses_fresh_scopes() {
    let source = "int fib(int n) { if (n < 2) { return n; } return fib(n - 1) + fib(n - 2); } fib(15)";
    assert_eq!(run(source), Object::Integer(610));
}

#[test]
fn budget_bounds_nested_calls() {
    let source = "int down(int n) { return down(n + 1); } down(0)";
    let mut parser = Parser::new(Lexer::new(source));
    let program = parser.parse_program();
    let mut env = bootstrap();
    let mut host = Script::new();
    let result = Interpreter::with_budget(50).eval_program(&program, &mut env, &mut host);
    assert_eq!(result, Object::Error("evaluation budget exhausted".to_string()));
}

#[test]
fn budget_bounds_the_rounds_of_a_loop() {
    let source = "int i = 0; while (true) { int i = i + 1; }";
    let mut parser = Parser::new(Lexer::new(source));
    let program = parser.parse_program();
    let mut env = bootstrap();
    let mut host = Script::new();
    let result = Interpreter::with_budget(10).eval_program(&program, &mut env, &mut host);
    assert_eq!(result, Object::Error("evaluation budget exhausted".to_string()));
    assert_eq!(env.get(0, "i"), Some(Object::Integer(11)));
}

#[test]
fn puts_prints_a_line_and_returns_null() {
    let mut host = Script::new();
    let result = run_with("puts(\"hi\"); puts(42)", &mut host);
    assert_eq!(result, Object::Null);
    assert_eq!(host.printed, "hi\n42\n");
}

#[test]
fn getchar_returns_what_the_host_answers() {
    let mut host = Script::with(vec![Reply::Byte(b'q')]);
    assert_eq!(run_with("getchar()", &mut host), Object::String("q".to_string()));
    let mut host = Script::with(vec![Reply::End]);
    assert_eq!(run_with("getchar()", &mut host), Object::Null);
    let mut host = Script::with(vec![Reply::Failed("broken".to_string())]);
    assert_eq!(
        run_with("getchar()", &mut host),
        Object::Error("getchar read error".to_string())
    );
}

#[test]
fn file_flags_follow_the_answers() {
    let source = "int f = fopen(\"data.txt\", \"r\"); \
                  int a = fgetc(f); \
                  int b = fgetc(f); \
                  int at_end = feof(f); \
                  rewind(f); \
                  int after = feof(f); \
                  sprintf(\"%s %s %s %s\", a, b, at_end, after)";
    let mut host = Script::with(vec![Reply::Done, Reply::Byte(b'x'), Reply::End, Reply::Done]);
    assert_eq!(run_with(source, &mut host), Object::String("x null true false".to_string()));
    assert_eq!(host.asked.len(), 4);
    assert_eq!(host.asked[0], "Open { file: 0, path: \"data.txt\", create: false }");
    assert_eq!(host.asked[1], "ReadByte { file: 0 }");
    assert_eq!(host.asked[3], "Seek { file: 0, offset: 0, whence: Start }");
}

#[test]
fn eval_program_in_plain_environment() {
    let mut parser = Parser::new(Lexer::new("int x = 2; x * 21"));
    let program = parser.parse_program();
    let mut env = Environment::new();
    let mut host = Script::new();
    let result = Interpreter::new().eval_program(&program, &mut env, &mut host);
    assert_eq!(result, Object::Integer(42));
    assert_eq!(env.get(0, "x"), Some(Object::Integer(2)));
}

#[test]
fn scopes_of_finished_calls_are_discarded() {
    let source = "int fact(int n) { if (n < 2) { return 1; } return n * fact(n - 1); } \
                  int i = 0; while (i < 50) { fact(5); int i = i + 1; } fact(10)";
    let mut parser = Parser::new(Lexer::new(source));
    let program = parser.parse_program();
    let mut env = bootstrap();
    let mut host = Script::new();
    let result = Interpreter::new().eval_program(&program, &mut env, &mut host);
    assert_eq!(result, Object::Integer(3628800));
    assert_eq!(env.len(), 1);
}

#[test]
fn scope_of_a_closure_outlives_its_call() {
    let source = "int outer(int x) { int inner() { return x; } return inner; } \
                  int first = outer(1); int second = outer(2); \
                  first() * 10 + second()";
    let mut parser = Parser::new(Lexer::new(source));
    let program = parser.parse_program();
    let mut env = bootstrap();
    let mut host = Script::new();
    let result = Interpreter::new().eval_program(&program, &mut env, &mut host);
    assert_eq!(result, Object::Integer(12));
    assert_eq!(env.len(), 3);
    assert_eq!(env.get(1, "x"), Some(Object::Integer(1)));
    assert_eq!(env.get(2, "x"), Some(Object::Integer(2)));
}

#[test]
fn fgets_reads_byte_by_byte_up_to_the_newline() {
    let source = "int f = fopen(\"data.txt\", \"r\"); \
                  int first = fgets(f); \
                  int second = fgets(f); \
                  int third = fgets(f); \
                  sprintf(\"[%s][%s][%s] %s\", first, second, third, feof(f))";
    let mut host = Script::with(vec![
        Reply::Done,
        Reply::Byte(b'a'),
        Reply::Byte(b'b'),
        Reply::Byte(b'\n'),
        Reply::Byte(b'c'),
        Reply::End,
        Reply::End,
    ]);
    assert_eq!(
        run_with(source, &mut host),
        Object::String("[ab\n][c][null] true".to_string())
    );
    assert_eq!(host.asked.len(), 7);
    assert_eq!(host.asked[1], "ReadByte { file: 0 }");
    assert_eq!(host.asked[6], "ReadByte { file: 0 }");
}

#[test]
fn fgets_failure_sets_the_error_flag() {
    let mut env = bootstrap();
    let mut interpreter = Interpreter::new();
    let mut host = Script::with(vec![
        Reply::Done,
        Reply::Byte(b'a'),
        Reply::Failed("broken pipe".to_string()),
    ]);
    let mut parser = Parser::new(Lexer::new("int f = fopen(\"data.txt\", \"r\"); fgets(f)"));
    let program = parser.parse_program();
    assert_eq!(
        interpreter.eval_program(&program, &mut env, &mut host),
        Object::Error("fgets error: broken pipe".to_string())
    );
    let mut parser = Parser::new(Lexer::new("ferror(f)"));
    let program = parser.parse_program();
    assert_eq!(interpreter.eval_program(&program, &mut env, &mut host), Object::Boolean(true));
}

#[test]
fn budget_bounds_the_length_of_a_line() {
    let source = "int f = fopen(\"data.txt\", \"r\"); fgets(f)";
    let mut parser = Parser::new(Lexer::new(source));
    let program = parser.parse_program();
    let mut env = bootstrap();
    let mut host = Script::with(vec![
        Reply::Done,
        Reply::Byte(b'a'),
        Reply::Byte(b'b'),
        Reply::Byte(b'c'),
        Reply::Byte(b'd'),
        Reply::Byte(b'e'),
    ]);
    let result = Interpreter::with_budget(3).eval_program(&program, &mut env, &mut host);
    assert_eq!(result, Object::Error("evaluation budget exhausted".to_string()));
    assert_eq!(host.asked.len(), 5);
}
