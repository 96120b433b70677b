use minic::env::{Environment, Object};
use minic::stdlib::{
    answer, answer_line, bootstrap, format_output, plan, register_stdlib, Builtin, FileState,
    LineStatus, Planned, Reply, Request, Whence,
};

fn text(s: &str) -> Object {
    Object::String(s.to_string())
}

fn format(args: Vec<Object>) -> String {
    format_output(&args, 0)
}

fn returned(planned: Planned) -> Object {
    match planned {
        Planned::Return(value) => value,
        other => panic!("planned {:?}", other),
    }
}

fn asked(planned: Planned) -> String {
    match planned {
        Planned::Ask(request) => format!("{:?}", request),
        other => panic!("planned {:?}", other),
    }
}

fn error(message: &str) -> Object {
    Object::Error(message.to_string())
}

fn one_file() -> Vec<FileState> {
    vec![FileState { eof: false, error: false }]
}

#[test]
fn format_without_arguments_is_empty() {
    assert_eq!(format(vec![]), "");
}

#[test]
fn format_expands_specifiers() {
    assert_eq!(format(vec![text("x=%d y=%s"), Object::Integer(1), text("two")]), "x=1 y=two");
    assert_eq!(format(vec![text("%s"), Object::Boolean(true)]), "true");
    assert_eq!(format(vec![text("%d"), text("not a number")]), "not a number");
    assert_eq!(format(vec![text("%s%s"), Object::Null, Object::Integer(-3)]), "null-3");
}

#[test]
fn format_percent_sign() {
    assert_eq!(format(vec![text("100%%")]), "100%");
    assert_eq!(format(vec![text("%%d"), Object::Integer(1)]), "%d");
}

#[test]
fn format_keeps_specifiers_without_arguments() {
    assert_eq!(format(vec![text("%d and %s")]), "%d and %s");
    assert_eq!(format(vec![text("%d %d"), Object::Integer(1)]), "1 %d");
}

#[test]
fn format_passes_other_characters_through() {
    assert_eq!(format(vec![text("%x %5d"), Object::Integer(1)]), "%x %5d");
    assert_eq!(format(vec![text("50%")]), "50%");
    assert_eq!(format(vec![text("a%"), Object::Integer(1)]), "a%");
}

#[test]
fn format_ignores_arguments_left_over() {
    assert_eq!(format(vec![text("only"), Object::Integer(1), Object::Integer(2)]), "only");
}

#[test]
fn format_without_a_format_string_joins_the_arguments() {
    assert_eq!(format(vec![Object::Integer(1), text("a"), Object::Boolean(false)]), "1afalse");
}

#[test]
fn format_from_a_later_argument() {
    let args = vec![Object::File(0), text("%d!"), Object::Integer(9)];
    assert_eq!(format_output(&args, 1), "9!");
    assert_eq!(format_output(&args, 3), "");
}

#[test]
fn puts_asks_for_a_line() {
    assert_eq!(asked(plan(Builtin::Puts, &vec![Object::Integer(5)], &vec![])), "Print(\"5\\n\")");
    assert_eq!(
        returned(plan(Builtin::Puts, &vec![], &vec![])),
        error("puts expected 1 argument, got 0")
    );
    assert_eq!(
        returned(plan(Builtin::Puts, &vec![Object::Null, Object::Null], &vec![])),
        error("puts expected 1 argument, got 2")
    );
}

#[test]
fn putchar_asks_for_the_first_character() {
    assert_eq!(asked(plan(Builtin::Putchar, &vec![text("hello")], &vec![])), "Print(\"h\")");
    assert_eq!(asked(plan(Builtin::Putchar, &vec![Object::Integer(65)], &vec![])), "Print(\"6\")");
    assert_eq!(returned(plan(Builtin::Putchar, &vec![text("")], &vec![])), Object::Null);
    assert_eq!(
        returned(plan(Builtin::Putchar, &vec![], &vec![])),
        error("putchar expected 1 argument")
    );
}

#[test]
fn printf_asks_and_sprintf_returns() {
    let args = vec![text("%d-%s"), Object::Integer(1), text("b")];
    assert_eq!(asked(plan(Builtin::Printf, &args, &vec![])), "Print(\"1-b\")");
    assert_eq!(returned(plan(Builtin::Sprintf, &args, &vec![])), text("1-b"));
    assert_eq!(returned(plan(Builtin::Sprintf, &vec![], &vec![])), text(""));
}

#[test]
fn fopen_checks_its_arguments() {
    assert_eq!(
        returned(plan(Builtin::Fopen, &vec![text("p")], &vec![])),
        error("fopen expected 2 arguments, got 1")
    );
    assert_eq!(
        returned(plan(Builtin::Fopen, &vec![Object::Integer(1), text("r")], &vec![])),
        error("fopen first argument must be a string path")
    );
    assert_eq!(
        returned(plan(Builtin::Fopen, &vec![text("p"), Object::Integer(1)], &vec![])),
        error("fopen second argument must be a string mode")
    );
}

#[test]
fn fopen_asks_under_the_next_handle() {
    assert_eq!(
        asked(plan(Builtin::Fopen, &vec![text("p"), text("r")], &vec![])),
        "Open { file: 0, path: \"p\", create: false }"
    );
    assert_eq!(
        asked(plan(Builtin::Fopen, &vec![text("p"), text("w")], &one_file())),
        "Open { file: 1, path: \"p\", create: true }"
    );
    assert_eq!(
        asked(plan(Builtin::Fopen, &vec![text("p"), text("a+")], &vec![])),
        "Open { file: 0, path: \"p\", create: false }"
    );
}

#[test]
fn fopen_answers() {
    let request = Request::Open { file: 0, path: "p".to_string(), create: false };
    let mut files = vec![];
    assert!(matches!(answer(Builtin::Fopen, &request, &mut files, Reply::Done), Object::File(0)));
    assert_eq!(files, one_file());
    let mut files = vec![];
    assert_eq!(
        answer(Builtin::Fopen, &request, &mut files, Reply::Failed("no such file".to_string())),
        error("fopen failed: no such file")
    );
    assert!(files.is_empty());
}

#[test]
fn fclose_does_nothing() {
    assert_eq!(returned(plan(Builtin::Fclose, &vec![], &vec![])), Object::Null);
    assert_eq!(returned(plan(Builtin::Fclose, &vec![Object::File(0)], &one_file())), Object::Null);
}

#[test]
fn fputs_checks_and_asks() {
    assert_eq!(
        returned(plan(Builtin::Fputs, &vec![text("s")], &one_file())),
        error("fputs expected 2 arguments")
    );
    assert_eq!(
        returned(plan(Builtin::Fputs, &vec![Object::Integer(1), Object::File(0)], &one_file())),
        error("fputs first arg must be string")
    );
    assert_eq!(
        returned(plan(Builtin::Fputs, &vec![text("s"), text("f")], &one_file())),
        error("fputs second arg must be file")
    );
    assert_eq!(
        returned(plan(Builtin::Fputs, &vec![text("s"), Object::File(3)], &one_file())),
        error("fputs second arg must be file")
    );
    assert_eq!(
        asked(plan(Builtin::Fputs, &vec![text("s"), Object::File(0)], &one_file())),
        "Write { file: 0, text: \"s\" }"
    );
}

#[test]
fn failed_write_sets_the_error_flag() {
    let request = Request::Write { file: 0, text: "s".to_string() };
    let mut files = one_file();
    assert_eq!(answer(Builtin::Fputs, &request, &mut files, Reply::Done), Object::Null);
    assert_eq!(files, one_file());
    assert_eq!(
        answer(Builtin::Fputs, &request, &mut files, Reply::Failed("disk full".to_string())),
        error("fputs failed: disk full")
    );
    assert_eq!(files, vec![FileState { eof: false, error: true }]);
    let mut files = one_file();
    assert_eq!(
        answer(Builtin::Fputc, &request, &mut files, Reply::Failed("x".to_string())),
        error("fputc failed: x")
    );
    assert_eq!(
        answer(Builtin::Putc, &request, &mut files, Reply::Failed("x".to_string())),
        error("putc failed: x")
    );
    assert_eq!(
        answer(Builtin::Fprintf, &request, &mut files, Reply::Failed("x".to_string())),
        error("write error")
    );
}

#[test]
fn fputc_and_putc() {
    for (builtin, name) in [(Builtin::Fputc, "fputc"), (Builtin::Putc, "putc")] {
        assert_eq!(
            returned(plan(builtin, &vec![text("a")], &one_file())),
            error(&format!("{} expected 2 arguments", name))
        );
        assert_eq!(returned(plan(builtin, &vec![text(""), text("x")], &one_file())), Object::Null);
        assert_eq!(
            returned(plan(builtin, &vec![text("a"), text("x")], &one_file())),
            error(&format!("{} arg must be file", name))
        );
        assert_eq!(
            asked(plan(builtin, &vec![text("abc"), Object::File(0)], &one_file())),
            "Write { file: 0, text: \"a\" }"
        );
    }
}

#[test]
fn fprintf_formats_what_follows_the_file() {
    assert_eq!(
        returned(plan(Builtin::Fprintf, &vec![Object::File(0)], &one_file())),
        error("fprintf expected at least file and fmt")
    );
    assert_eq!(
        returned(plan(Builtin::Fprintf, &vec![text("f"), text("x")], &one_file())),
        error("fprintf first arg must be file")
    );
    assert_eq!(
        asked(plan(
            Builtin::Fprintf,
            &vec![Object::File(0), text("%d;"), Object::Integer(4)],
            &one_file()
        )),
        "Write { file: 0, text: \"4;\" }"
    );
}

#[test]
fn fgets_plans() {
    assert_eq!(
        returned(plan(Builtin::Fgets, &vec![], &one_file())),
        error("fgets expected 1 argument")
    );
    assert_eq!(
        returned(plan(Builtin::Fgets, &vec![Object::Null], &one_file())),
        error("fgets arg must be file")
    );
    assert!(matches!(
        plan(Builtin::Fgets, &vec![Object::File(0)], &one_file()),
        Planned::Line(0)
    ));
}

#[test]
fn fgets_answers() {
    let mut files = one_file();
    let line = b"ab\n".to_vec();
    assert_eq!(answer_line(&mut files, 0, &line, LineStatus::Newline), text("ab\n"));
    assert_eq!(files, one_file());
    let last = b"tail".to_vec();
    assert_eq!(answer_line(&mut files, 0, &last, LineStatus::End), text("tail"));
    assert_eq!(files, vec![FileState { eof: true, error: false }]);
    assert_eq!(answer_line(&mut files, 0, &vec![], LineStatus::End), Object::Null);
    assert_eq!(answer_line(&mut files, 0, &vec![], LineStatus::Newline), Object::Null);
    let mut files = one_file();
    assert_eq!(
        answer_line(&mut files, 0, &vec![], LineStatus::Failed("io".to_string())),
        error("fgets error: io")
    );
    assert_eq!(files, vec![FileState { eof: false, error: true }]);
    let mut files = one_file();
    assert_eq!(
        answer_line(&mut files, 0, &vec![], LineStatus::Unexpected),
        error("fgets error: unexpected answer")
    );
    assert_eq!(files, vec![FileState { eof: false, error: true }]);
    let mut files = one_file();
    assert_eq!(
        answer_line(&mut files, 0, &b"abc".to_vec(), LineStatus::Exhausted),
        error("evaluation budget exhausted")
    );
    assert_eq!(files, one_file());
}

#[test]
fn fgets_maps_bytes_to_characters() {
    let mut files = one_file();
    let line = vec![0x41, 0xe9, 0xff];
    assert_eq!(answer_line(&mut files, 0, &line, LineStatus::End), text("A\u{e9}\u{ff}"));
}

#[test]
fn fgetc_and_getc() {
    for (builtin, name) in [(Builtin::Fgetc, "fgetc"), (Builtin::Getc, "getc")] {
        assert_eq!(
            returned(plan(builtin, &vec![], &one_file())),
            error(&format!("{} expected 1 arg", name))
        );
        assert_eq!(
            returned(plan(builtin, &vec![text("f")], &one_file())),
            error(&format!("{} arg must be file", name))
        );
        assert_eq!(asked(plan(builtin, &vec![Object::File(0)], &one_file())), "ReadByte { file: 0 }");
        let request = Request::ReadByte { file: 0 };
        let mut files = one_file();
        assert_eq!(answer(builtin, &request, &mut files, Reply::Byte(b'z')), text("z"));
        assert_eq!(files, one_file());
        assert_eq!(answer(builtin, &request, &mut files, Reply::End), Object::Null);
        assert_eq!(files, vec![FileState { eof: true, error: false }]);
        assert_eq!(
            answer(builtin, &request, &mut files, Reply::Failed("io".to_string())),
            Object::Null
        );
        assert_eq!(files, vec![FileState { eof: true, error: true }]);
    }
}

#[test]
fn feof_and_ferror_read_the_flags() {
    let files = vec![FileState { eof: true, error: false }, FileState { eof: false, error: true }];
    assert_eq!(returned(plan(Builtin::Feof, &vec![Object::File(0)], &files)), Object::Boolean(true));
    assert_eq!(returned(plan(Builtin::Feof, &vec![Object::File(1)], &files)), Object::Boolean(false));
    assert_eq!(
        returned(plan(Builtin::Ferror, &vec![Object::File(0)], &files)),
        Object::Boolean(false)
    );
    assert_eq!(
        returned(plan(Builtin::Ferror, &vec![Object::File(1)], &files)),
        Object::Boolean(true)
    );
    assert_eq!(returned(plan(Builtin::Feof, &vec![], &files)), error("feof expected 1 arg"));
    assert_eq!(returned(plan(Builtin::Ferror, &vec![], &files)), error("ferror expected 1 arg"));
    assert_eq!(
        returned(plan(Builtin::Feof, &vec![Object::Null], &files)),
        error("feof arg must be file")
    );
    assert_eq!(
        returned(plan(Builtin::Ferror, &vec![Object::File(2)], &files)),
        error("ferror arg must be file")
    );
}

#[test]
fn ftell() {
    assert_eq!(returned(plan(Builtin::Ftell, &vec![], &one_file())), error("ftell expected 1 arg"));
    assert_eq!(
        returned(plan(Builtin::Ftell, &vec![Object::Integer(0)], &one_file())),
        error("ftell arg must be file")
    );
    assert_eq!(asked(plan(Builtin::Ftell, &vec![Object::File(0)], &one_file())), "Tell { file: 0 }");
    let request = Request::Tell { file: 0 };
    let mut files = one_file();
    assert_eq!(
        answer(Builtin::Ftell, &request, &mut files, Reply::Position(12)),
        Object::Integer(12)
    );
    assert_eq!(
        answer(Builtin::Ftell, &request, &mut files, Reply::Position(u64::MAX)),
        Object::Integer(-1)
    );
    assert_eq!(
        answer(Builtin::Ftell, &request, &mut files, Reply::Position(1 << 63)),
        Object::Integer(i64::MIN)
    );
    assert_eq!(
        answer(Builtin::Ftell, &request, &mut files, Reply::Failed("io".to_string())),
        Object::Integer(-1)
    );
    assert_eq!(files, one_file());
}

#[test]
fn fseek_checks_its_arguments() {
    let files = one_file();
    let file = || Object::File(0);
    assert_eq!(
        returned(plan(Builtin::Fseek, &vec![file()], &files)),
        error("fseek expected 3 args")
    );
    assert_eq!(
        returned(plan(Builtin::Fseek, &vec![Object::Null, Object::Integer(0), Object::Integer(0)], &files)),
        error("fseek arg must be file")
    );
    assert_eq!(
        returned(plan(Builtin::Fseek, &vec![file(), text("0"), Object::Integer(0)], &files)),
        error("fseek offset must be int")
    );
    assert_eq!(
        returned(plan(Builtin::Fseek, &vec![file(), Object::Integer(0), text("0")], &files)),
        error("fseek whence must be int")
    );
    assert_eq!(
        returned(plan(Builtin::Fseek, &vec![file(), Object::Integer(0), Object::Integer(3)], &files)),
        error("invalid whence")
    );
}

#[test]
fn fseek_asks_by_whence() {
    let files = one_file();
    let seek = |offset: i64, whence: i64| {
        asked(plan(
            Builtin::Fseek,
            &vec![Object::File(0), Object::Integer(offset), Object::Integer(whence)],
            &files,
        ))
    };
    assert_eq!(seek(4, 0), "Seek { file: 0, offset: 4, whence: Start }");
    assert_eq!(seek(-2, 1), "Seek { file: 0, offset: -2, whence: Current }");
    assert_eq!(seek(0, 2), "Seek { file: 0, offset: 0, whence: End }");
}

#[test]
fn fseek_answers() {
    let request = Request::Seek { file: 0, offset: 0, whence: Whence::Start };
    let mut files = vec![FileState { eof: true, error: false }];
    assert_eq!(answer(Builtin::Fseek, &request, &mut files, Reply::Done), Object::Integer(0));
    assert_eq!(files, one_file());
    let mut files = vec![FileState { eof: true, error: false }];
    assert_eq!(
        answer(Builtin::Fseek, &request, &mut files, Reply::Failed("io".to_string())),
        Object::Integer(-1)
    );
    assert_eq!(files, vec![FileState { eof: true, error: true }]);
}

#[test]
fn rewind_clears_both_flags() {
    assert_eq!(
        returned(plan(Builtin::Rewind, &vec![], &one_file())),
        error("rewind expected 1 arg")
    );
    assert_eq!(
        returned(plan(Builtin::Rewind, &vec![Object::Null], &one_file())),
        error("rewind arg must be file")
    );
    assert_eq!(
        asked(plan(Builtin::Rewind, &vec![Object::File(0)], &one_file())),
        "Seek { file: 0, offset: 0, whence: Start }"
    );
    let request = Request::Seek { file: 0, offset: 0, whence: Whence::Start };
    let mut files = vec![FileState { eof: true, error: true }];
    assert_eq!(
        answer(Builtin::Rewind, &request, &mut files, Reply::Failed("io".to_string())),
        Object::Null
    );
    assert_eq!(files, one_file());
}

#[test]
fn remove_and_rename() {
    assert_eq!(returned(plan(Builtin::Remove, &vec![], &vec![])), error("remove expected 1 arg"));
    assert_eq!(
        returned(plan(Builtin::Remove, &vec![Object::Integer(1)], &vec![])),
        error("remove arg must be string")
    );
    assert_eq!(asked(plan(Builtin::Remove, &vec![text("p")], &vec![])), "Remove(\"p\")");
    assert_eq!(
        returned(plan(Builtin::Rename, &vec![text("a")], &vec![])),
        error("rename expected 2 args")
    );
    assert_eq!(
        returned(plan(Builtin::Rename, &vec![Object::Null, text("b")], &vec![])),
        error("rename old must be string")
    );
    assert_eq!(
        returned(plan(Builtin::Rename, &vec![text("a"), Object::Null], &vec![])),
        error("rename new must be string")
    );
    assert_eq!(
        asked(plan(Builtin::Rename, &vec![text("a"), text("b")], &vec![])),
        "Rename(\"a\", \"b\")"
    );
    let mut files = vec![];
    let remove = Request::Remove("p".to_string());
    assert_eq!(answer(Builtin::Remove, &remove, &mut files, Reply::Done), Object::Null);
    assert_eq!(
        answer(Builtin::Remove, &remove, &mut files, Reply::Failed("gone".to_string())),
        error("remove failed: gone")
    );
    let rename = Request::Rename("a".to_string(), "b".to_string());
    assert_eq!(answer(Builtin::Rename, &rename, &mut files, Reply::Done), Object::Null);
    assert_eq!(
        answer(Builtin::Rename, &rename, &mut files, Reply::Failed("busy".to_string())),
        error("rename failed: busy")
    );
}

#[test]
fn getchar() {
    assert_eq!(
        returned(plan(Builtin::Getchar, &vec![Object::Null], &vec![])),
        error("getchar expected 0 args")
    );
    assert_eq!(asked(plan(Builtin::Getchar, &vec![], &vec![])), "ReadInput");
    let mut files = vec![];
    assert_eq!(
        answer(Builtin::Getchar, &Request::ReadInput, &mut files, Reply::Byte(b'k')),
        text("k")
    );
    assert_eq!(answer(Builtin::Getchar, &Request::ReadInput, &mut files, Reply::End), Object::Null);
    assert_eq!(
        answer(Builtin::Getchar, &Request::ReadInput, &mut files, Reply::Done),
        error("getchar read error")
    );
}

#[test]
fn print_answer_is_null() {
    let mut files = vec![];
    let request = Request::Print("x".to_string());
    assert_eq!(
        answer(Builtin::Puts, &request, &mut files, Reply::Failed("closed".to_string())),
        Object::Null
    );
}

#[test]
fn every_builtin_is_registered_under_its_name() {
    let mut env = Environment::new();
    register_stdlib(&mut env);
    let names = [
        "puts", "putchar", "printf", "sprintf", "fopen", "fclose", "fputs", "fputc", "fprintf",
        "fgets", "fgetc", "feof", "ferror", "ftell", "fseek", "rewind", "remove", "rename",
        "getchar", "getc", "putc",
    ];
    for name in names {
        match env.get(0, name) {
            Some(Object::Builtin(builtin)) => assert_eq!(builtin.name_string(), name),
            other => panic!("{} is bound to {:?}", name, other),
        }
    }
    assert_eq!(env.get(0, "true"), None);
}

#[test]
fn bootstrap_binds_builtins_and_constants() {
    let env = bootstrap();
    assert_eq!(env.len(), 1);
    assert_eq!(env.get(0, "null"), Some(Object::Null));
    assert_eq!(env.get(0, "true"), Some(Object::Boolean(true)));
    assert_eq!(env.get(0, "false"), Some(Object::Boolean(false)));
    assert!(matches!(env.get(0, "printf"), Some(Object::Builtin(Builtin::Printf))));
    assert_eq!(env.get(0, "nothing"), None);
}
