//! The builtin functions: their names, what each asks of the host, and what
//! each returns for what the host answers.

use crate::env::Environment;
use crate::env::Object;
use crate::env::ObjectView;
use crate::env::bind;
use crate::env::inspect_text;
use crate::env::objects_view;
use crate::text::decimal;
use crate::text::joined;
use crate::text::count_to_string;
use crate::text::to_chars;
use crate::text::char_to_string;
use vstd::prelude::*;

verus! {

/// A builtin function of the language.
#[derive(Debug, Clone, Copy, PartialEq, Eq, Structural)]
pub enum Builtin {
    Puts,
    Putchar,
    Printf,
    Sprintf,
    Fopen,
    Fclose,
    Fputs,
    Fputc,
    Fprintf,
    Fgets,
    Fgetc,
    Feof,
    Ferror,
    Ftell,
    Fseek,
    Rewind,
    Remove,
    Rename,
    Getchar,
    Getc,
    Putc,
}

impl Builtin {
    /// The name under which the builtin is bound.
    pub open spec fn name(self) -> Seq<char> {
        match self {
            Builtin::Puts => "puts"@,
            Builtin::Putchar => "putchar"@,
            Builtin::Printf => "printf"@,
            Builtin::Sprintf => "sprintf"@,
            Builtin::Fopen => "fopen"@,
            Builtin::Fclose => "fclose"@,
            Builtin::Fputs => "fputs"@,
            Builtin::Fputc => "fputc"@,
            Builtin::Fprintf => "fprintf"@,
            Builtin::Fgets => "fgets"@,
            Builtin::Fgetc => "fgetc"@,
            Builtin::Feof => "feof"@,
            Builtin::Ferror => "ferror"@,
            Builtin::Ftell => "ftell"@,
            Builtin::Fseek => "fseek"@,
            Builtin::Rewind => "rewind"@,
            Builtin::Remove => "remove"@,
            Builtin::Rename => "rename"@,
            Builtin::Getchar => "getchar"@,
            Builtin::Getc => "getc"@,
            Builtin::Putc => "putc"@,
        }
    }

    /// The name under which the builtin is bound.
    pub fn name_string(self) -> (r: String)
        ensures
            r@ == self.name(),
    {
        match self {
            Builtin::Puts => String::from_str("puts"),
            Builtin::Putchar => String::from_str("putchar"),
            Builtin::Printf => String::from_str("printf"),
            Builtin::Sprintf => String::from_str("sprintf"),
            Builtin::Fopen => String::from_str("fopen"),
            Builtin::Fclose => String::from_str("fclose"),
            Builtin::Fputs => String::from_str("fputs"),
            Builtin::Fputc => String::from_str("fputc"),
            Builtin::Fprintf => String::from_str("fprintf"),
            Builtin::Fgets => String::from_str("fgets"),
            Builtin::Fgetc => String::from_str("fgetc"),
            Builtin::Feof => String::from_str("feof"),
            Builtin::Ferror => String::from_str("ferror"),
            Builtin::Ftell => String::from_str("ftell"),
            Builtin::Fseek => String::from_str("fseek"),
            Builtin::Rewind => String::from_str("rewind"),
            Builtin::Remove => String::from_str("remove"),
            Builtin::Rename => String::from_str("rename"),
            Builtin::Getchar => String::from_str("getchar"),
            Builtin::Getc => String::from_str("getc"),
            Builtin::Putc => String::from_str("putc"),
        }
    }
}

// ---------------------------------------------------------------------------
// The host
// ---------------------------------------------------------------------------

/// The sticky flags of an open file.
#[derive(Debug, Clone, Copy, PartialEq, Eq, Structural)]
pub struct FileState {
    /// A read has met the end of the file.
    pub eof: bool,
    /// An operation on the file has failed.
    pub error: bool,
}

/// Where a seek counts from.
#[derive(Debug, Clone, Copy, PartialEq, Eq, Structural)]
pub enum Whence {
    Start,
    Current,
    End,
}

/// What a builtin asks of the host. Files are named by the handle that
/// `Open` gave them.
#[derive(Debug)]
pub enum Request {
    /// Write `text` to the standard output.
    Print(String),
    /// Open the file at `path` under the handle `file`: for reading, or,
    /// with `create`, created or emptied for writing.
    Open { file: usize, path: String, create: bool },
    /// Write `text` to the file.
    Write { file: usize, text: String },
    /// Read one byte from the file.
    ReadByte { file: usize },
    /// Report the current offset in the file.
    Tell { file: usize },
    /// Move to `offset`, counted from `whence`.
    Seek { file: usize, offset: i64, whence: Whence },
    /// Delete the file at the path.
    Remove(String),
    /// Rename the file at the first path to the second.
    Rename(String, String),
    /// Read one byte from the standard input.
    ReadInput,
}

/// The mathematical value of a `Request`.
pub enum RequestView {
    Print(Seq<char>),
    Open { file: nat, path: Seq<char>, create: bool },
    Write { file: nat, text: Seq<char> },
    ReadByte { file: nat },
    Tell { file: nat },
    Seek { file: nat, offset: i64, whence: Whence },
    Remove(Seq<char>),
    Rename(Seq<char>, Seq<char>),
    ReadInput,
}

impl View for Request {
    type V = RequestView;

    open spec fn view(&self) -> RequestView {
        match self {
            Request::Print(text) => RequestView::Print(text@),
            Request::Open { file, path, create } => RequestView::Open {
                file: *file as nat,
                path: path@,
                create: *create,
            },
            Request::Write { file, text } => RequestView::Write { file: *file as nat, text: text@ },
            Request::ReadByte { file } => RequestView::ReadByte { file: *file as nat },
            Request::Tell { file } => RequestView::Tell { file: *file as nat },
            Request::Seek { file, offset, whence } => RequestView::Seek {
                file: *file as nat,
                offset: *offset,
                whence: *whence,
            },
            Request::Remove(path) => RequestView::Remove(path@),
            Request::Rename(from, to) => RequestView::Rename(from@, to@),
            Request::ReadInput => RequestView::ReadInput,
        }
    }
}

/// What the host answers.
#[derive(Debug)]
pub enum Reply {
    /// The request was carried out.
    Done,
    /// The request failed; the text says why.
    Failed(String),
    /// One byte.
    Byte(u8),
    /// Nothing is left to read.
    End,
    /// An offset in a file.
    Position(u64),
}

/// The mathematical value of a `Reply`.
pub enum ReplyView {
    Done,
    Failed(Seq<char>),
    Byte(u8),
    End,
    Position(u64),
}

impl View for Reply {
    type V = ReplyView;

    open spec fn view(&self) -> ReplyView {
        match self {
            Reply::Done => ReplyView::Done,
            Reply::Failed(why) => ReplyView::Failed(why@),
            Reply::Byte(byte) => ReplyView::Byte(*byte),
            Reply::End => ReplyView::End,
            Reply::Position(offset) => ReplyView::Position(*offset),
        }
    }
}

/// The outside world as the builtins use it. Nothing is promised of what a
/// host answers: every builtin says what it returns for every answer.
pub trait Host {
    /// Carries out `request` and answers.
    fn perform(&mut self, request: &Request) -> Reply;
}

// ---------------------------------------------------------------------------
// Formatting
// ---------------------------------------------------------------------------

/// The texts that show `args[from..]`, one after the other.
pub open spec fn inspect_all(args: Seq<ObjectView>, from: nat) -> Seq<char>
    decreases args.len() - from,
{
    if from >= args.len() {
        Seq::empty()
    } else {
        inspect_text(args[from as int]) + inspect_all(args, from + 1)
    }
}

/// The expansion of `format[at..]` with the arguments `args[used..]`: `%s`
/// and `%d` stand for the text that shows the next argument, and for
/// themselves once the arguments have run out; `%%` stands for one percent
/// sign; any other character stands for itself, a percent sign before it
/// too.
pub open spec fn expand(format: Seq<char>, at: nat, args: Seq<ObjectView>, used: nat) -> Seq<char>
    decreases format.len() - at,
{
    if at >= format.len() {
        Seq::empty()
    } else if format[at as int] == '%' && at + 1 < format.len() && (format[(at + 1) as int] == 's'
        || format[(at + 1) as int] == 'd') {
        if used < args.len() {
            inspect_text(args[used as int]) + expand(format, at + 2, args, used + 1)
        } else {
            seq!['%', format[(at + 1) as int]] + expand(format, at + 2, args, used)
        }
    } else if format[at as int] == '%' && at + 1 < format.len() && format[(at + 1) as int] == '%' {
        seq!['%'] + expand(format, at + 2, args, used)
    } else {
        seq![format[at as int]] + expand(format, at + 1, args, used)
    }
}

/// The text that `printf` and its kin make of their arguments: the
/// expansion of the first argument with the others where it is a string,
/// else the texts that show all the arguments; nothing for no argument.
pub open spec fn formatted(args: Seq<ObjectView>) -> Seq<char> {
    if args.len() == 0 {
        Seq::empty()
    } else {
        match args[0] {
            ObjectView::String(format) => expand(format, 0, args, 1),
            _ => inspect_all(args, 0),
        }
    }
}

/// The text that `printf` and its kin make of `args[from..]`.
pub fn format_output(args: &Vec<Object>, from: usize) -> (out: String)
    requires
        from <= args.len(),
    ensures
        out@ == formatted(objects_view(args@).skip(from as int)),
{
    let ghost all = objects_view(args@).skip(from as int);
    let mut out = String::new();
    if from >= args.len() {
        return out;
    }
    match &args[from] {
        Object::String(format) => {
            let format = to_chars(format.as_str());
            let mut used: usize = from + 1;
            let mut at: usize = 0;
            assert(out@ + expand(format@, 0, all, 1) == expand(format@, 0, all, 1));
            while at < format.len()
                invariant
                    at <= format.len(),
                    from < used <= args.len(),
                    all == objects_view(args@).skip(from as int),
                    expand(format@, 0, all, 1) == out@ + expand(
                        format@,
                        at as nat,
                        all,
                        (used - from) as nat,
                    ),
                decreases format.len() - at,
            {
                let ghost before = out@;
                let ghost rest = expand(format@, at as nat, all, (used - from) as nat);
                let c = format[at];
                if c == '%' && at + 1 < format.len() && (format[at + 1] == 's' || format[at + 1]
                    == 'd') {
                    if used < args.len() {
                        let shown = args[used].inspect();
                        out.append(shown.as_str());
                        assert(all[used - from] == args@[used as int]@);
                        assert(before + (shown@ + expand(
                            format@,
                            (at + 2) as nat,
                            all,
                            (used + 1 - from) as nat,
                        )) == before + shown@ + expand(
                            format@,
                            (at + 2) as nat,
                            all,
                            (used + 1 - from) as nat,
                        ));
                        used += 1;
                    } else {
                        out.push('%');
                        out.push(format[at + 1]);
                        assert(before + (seq!['%', format@[at + 1]] + expand(
                            format@,
                            (at + 2) as nat,
                            all,
                            (used - from) as nat,
                        )) == before.push('%').push(format@[at + 1]) + expand(
                            format@,
                            (at + 2) as nat,
                            all,
                            (used - from) as nat,
                        ));
                    }
                    at += 2;
                } else if c == '%' && at + 1 < format.len() && format[at + 1] == '%' {
                    out.push('%');
                    assert(before + (seq!['%'] + expand(
                        format@,
                        (at + 2) as nat,
                        all,
                        (used - from) as nat,
                    )) == before.push('%') + expand(
                        format@,
                        (at + 2) as nat,
                        all,
                        (used - from) as nat,
                    ));
                    at += 2;
                } else {
                    out.push(c);
                    assert(before + (seq![c] + expand(
                        format@,
                        (at + 1) as nat,
                        all,
                        (used - from) as nat,
                    )) == before.push(c) + expand(
                        format@,
                        (at + 1) as nat,
                        all,
                        (used - from) as nat,
                    ));
                    at += 1;
                }
            }
            assert(out@ + Seq::<char>::empty() == out@);
            out
        },
        _ => {
            let mut i: usize = from;
            assert(out@ + inspect_all(all, 0) == inspect_all(all, 0));
            while i < args.len()
                invariant
                    from <= i <= args.len(),
                    all == objects_view(args@).skip(from as int),
                    inspect_all(all, 0) == out@ + inspect_all(all, (i - from) as nat),
                decreases args.len() - i,
            {
                let ghost before = out@;
                let shown = args[i].inspect();
                out.append(shown.as_str());
                assert(all[i - from] == args@[i as int]@);
                assert(before + (shown@ + inspect_all(all, (i + 1 - from) as nat)) == before
                    + shown@ + inspect_all(all, (i + 1 - from) as nat));
                i += 1;
            }
            assert(out@ + Seq::<char>::empty() == out@);
            out
        },
    }
}

// ---------------------------------------------------------------------------
// What the builtins do
// ---------------------------------------------------------------------------

/// What a call of a builtin does first: it returns at once, it asks one
/// thing of the host, or it reads a line from a file, byte by byte.
pub enum Plan {
    Return(ObjectView),
    Ask(RequestView),
    Line(nat),
}

/// What a call of a builtin does first.
#[derive(Debug)]
pub enum Planned {
    Return(Object),
    Ask(Request),
    Line(usize),
}

impl View for Planned {
    type V = Plan;

    open spec fn view(&self) -> Plan {
        match self {
            Planned::Return(value) => Plan::Return(value@),
            Planned::Ask(request) => Plan::Ask(request@),
            Planned::Line(file) => Plan::Line(*file as nat),
        }
    }
}

/// What a call of a builtin comes to: the value returned and the flags of
/// the open files after it.
pub struct Outcome {
    pub value: ObjectView,
    pub files: Seq<FileState>,
}

/// The plan to return an error with the message `message`.
pub open spec fn refuse(message: Seq<char>) -> Plan {
    Plan::Return(ObjectView::Error(message))
}

/// The handle of the open file that `arg` is, if it is one.
pub open spec fn file_of(arg: ObjectView, files: Seq<FileState>) -> Option<nat> {
    match arg {
        ObjectView::File(handle) => if handle < files.len() {
            Some(handle)
        } else {
            None
        },
        _ => None,
    }
}

/// The characters that stand for `bytes`, byte by byte.
pub open spec fn latin1(bytes: Seq<u8>) -> Seq<char> {
    Seq::new(bytes.len(), |i: int| bytes[i] as char)
}

/// Where `whence` says that a seek counts from, if it says so.
pub open spec fn whence_of(whence: i64) -> Option<Whence> {
    if whence == 0 {
        Some(Whence::Start)
    } else if whence == 1 {
        Some(Whence::Current)
    } else if whence == 2 {
        Some(Whence::End)
    } else {
        None
    }
}

/// What a call of `builtin` with `args` does first, the open files being
/// `files`: the checks on the number and the kinds of the arguments, what
/// is returned without the host, and what is asked of the host.
pub open spec fn plan_of(builtin: Builtin, args: Seq<ObjectView>, files: Seq<FileState>) -> Plan {
    match builtin {
        Builtin::Puts => if args.len() != 1 {
            refuse("puts expected 1 argument, got "@ + decimal(args.len() as int))
        } else {
            Plan::Ask(RequestView::Print(inspect_text(args[0]).push('\n')))
        },
        Builtin::Putchar => if args.len() != 1 {
            refuse("putchar expected 1 argument"@)
        } else if inspect_text(args[0]).len() == 0 {
            Plan::Return(ObjectView::Null)
        } else {
            Plan::Ask(RequestView::Print(seq![inspect_text(args[0])[0]]))
        },
        Builtin::Printf => Plan::Ask(RequestView::Print(formatted(args))),
        Builtin::Sprintf => Plan::Return(ObjectView::String(formatted(args))),
        Builtin::Fopen => if args.len() != 2 {
            refuse("fopen expected 2 arguments, got "@ + decimal(args.len() as int))
        } else {
            match (args[0], args[1]) {
                (ObjectView::String(path), ObjectView::String(mode)) => Plan::Ask(
                    RequestView::Open { file: files.len(), path, create: mode == "w"@ },
                ),
                (ObjectView::String(_), _) => refuse("fopen second argument must be a string mode"@),
                _ => refuse("fopen first argument must be a string path"@),
            }
        },
        Builtin::Fclose => Plan::Return(ObjectView::Null),
        Builtin::Fputs => if args.len() != 2 {
            refuse("fputs expected 2 arguments"@)
        } else {
            match args[0] {
                ObjectView::String(content) => match file_of(args[1], files) {
                    Some(file) => Plan::Ask(RequestView::Write { file, text: content }),
                    None => refuse("fputs second arg must be file"@),
                },
                _ => refuse("fputs first arg must be string"@),
            }
        },
        Builtin::Fputc | Builtin::Putc => if args.len() != 2 {
            refuse(builtin.name() + " expected 2 arguments"@)
        } else if inspect_text(args[0]).len() == 0 {
            Plan::Return(ObjectView::Null)
        } else {
            match file_of(args[1], files) {
                Some(file) => Plan::Ask(
                    RequestView::Write { file, text: seq![inspect_text(args[0])[0]] },
                ),
                None => refuse(builtin.name() + " arg must be file"@),
            }
        },
        Builtin::Fprintf => if args.len() < 2 {
            refuse("fprintf expected at least file and fmt"@)
        } else {
            match file_of(args[0], files) {
                Some(file) => Plan::Ask(
                    RequestView::Write { file, text: formatted(args.skip(1)) },
                ),
                None => refuse("fprintf first arg must be file"@),
            }
        },
        Builtin::Fgets => if args.len() != 1 {
            refuse("fgets expected 1 argument"@)
        } else {
            match file_of(args[0], files) {
                Some(file) => Plan::Line(file),
                None => refuse("fgets arg must be file"@),
            }
        },
        Builtin::Fgetc | Builtin::Getc => if args.len() != 1 {
            refuse(builtin.name() + " expected 1 arg"@)
        } else {
            match file_of(args[0], files) {
                Some(file) => Plan::Ask(RequestView::ReadByte { file }),
                None => refuse(builtin.name() + " arg must be file"@),
            }
        },
        Builtin::Feof => if args.len() != 1 {
            refuse("feof expected 1 arg"@)
        } else {
            match file_of(args[0], files) {
                Some(file) => Plan::Return(ObjectView::Boolean(files[file as int].eof)),
                None => refuse("feof arg must be file"@),
            }
        },
        Builtin::Ferror => if args.len() != 1 {
            refuse("ferror expected 1 arg"@)
        } else {
            match file_of(args[0], files) {
                Some(file) => Plan::Return(ObjectView::Boolean(files[file as int].error)),
                None => refuse("ferror arg must be file"@),
            }
        },
        Builtin::Ftell => if args.len() != 1 {
            refuse("ftell expected 1 arg"@)
        } else {
            match file_of(args[0], files) {
                Some(file) => Plan::Ask(RequestView::Tell { file }),
                None => refuse("ftell arg must be file"@),
            }
        },
        Builtin::Fseek => if args.len() != 3 {
            refuse("fseek expected 3 args"@)
        } else {
            match file_of(args[0], files) {
                Some(file) => match (args[1], args[2]) {
                    (ObjectView::Integer(offset), ObjectView::Integer(whence)) => match whence_of(
                        whence,
                    ) {
                        Some(from) => Plan::Ask(RequestView::Seek { file, offset, whence: from }),
                        None => refuse("invalid whence"@),
                    },
                    (ObjectView::Integer(_), _) => refuse("fseek whence must be int"@),
                    _ => refuse("fseek offset must be int"@),
                },
                None => refuse("fseek arg must be file"@),
            }
        },
        Builtin::Rewind => if args.len() != 1 {
            refuse("rewind expected 1 arg"@)
        } else {
            match file_of(args[0], files) {
                Some(file) => Plan::Ask(
                    RequestView::Seek { file, offset: 0, whence: Whence::Start },
                ),
                None => refuse("rewind arg must be file"@),
            }
        },
        Builtin::Remove => if args.len() != 1 {
            refuse("remove expected 1 arg"@)
        } else {
            match args[0] {
                ObjectView::String(path) => Plan::Ask(RequestView::Remove(path)),
                _ => refuse("remove arg must be string"@),
            }
        },
        Builtin::Rename => if args.len() != 2 {
            refuse("rename expected 2 args"@)
        } else {
            match (args[0], args[1]) {
                (ObjectView::String(from), ObjectView::String(to)) => Plan::Ask(
                    RequestView::Rename(from, to),
                ),
                (ObjectView::String(_), _) => refuse("rename new must be string"@),
                _ => refuse("rename old must be string"@),
            }
        },
        Builtin::Getchar => if args.len() != 0 {
            refuse("getchar expected 0 args"@)
        } else {
            Plan::Ask(RequestView::ReadInput)
        },
    }
}

/// The flags `files` with those of `file` replaced by `state`.
pub open spec fn with_state(files: Seq<FileState>, file: nat, state: FileState) -> Seq<FileState> {
    if file < files.len() {
        files.update(file as int, state)
    } else {
        files
    }
}

/// The flags of `file`; none set for a handle that names no file.
pub open spec fn state_of(files: Seq<FileState>, file: nat) -> FileState {
    if file < files.len() {
        files[file as int]
    } else {
        FileState { eof: false, error: false }
    }
}

/// The flags `files` with the error flag of `file` set.
pub open spec fn with_error(files: Seq<FileState>, file: nat) -> Seq<FileState> {
    with_state(files, file, FileState { eof: state_of(files, file).eof, error: true })
}

/// The flags `files` with the end-of-file flag of `file` set to `eof`.
pub open spec fn with_eof(files: Seq<FileState>, file: nat, eof: bool) -> Seq<FileState> {
    with_state(files, file, FileState { eof, error: state_of(files, file).error })
}

/// The 64-bit signed integer with the bit pattern of `offset`.
pub open spec fn as_signed(offset: u64) -> i64 {
    if offset <= i64::MAX {
        offset as i64
    } else {
        (offset - 0x1_0000_0000_0000_0000) as i64
    }
}

/// The message of the error that a builtin returns when its write failed
/// for the reason `why`.
pub open spec fn write_failure(builtin: Builtin, why: Seq<char>) -> Seq<char> {
    if builtin is Fprintf {
        "write error"@
    } else {
        builtin.name() + " failed: "@ + why
    }
}

/// The answer of the host to the request number `at`; past the answers
/// given, that nothing is left to read.
pub open spec fn reply_at(replies: Seq<ReplyView>, at: nat) -> ReplyView {
    if at < replies.len() {
        replies[at as int]
    } else {
        ReplyView::End
    }
}

/// How the reading of a line ended.
pub enum LineEnd {
    /// With a newline, which is the last byte read.
    Newline,
    /// At the end of the file.
    End,
    /// With a failure; the text says why.
    Failed(Seq<char>),
    /// With an answer that is neither a byte, nor the end, nor a failure.
    Unexpected,
    /// With the budget used up.
    Exhausted,
}

/// How the reading of a line ended.
#[derive(Debug)]
pub enum LineStatus {
    Newline,
    End,
    Failed(String),
    Unexpected,
    Exhausted,
}

impl View for LineStatus {
    type V = LineEnd;

    open spec fn view(&self) -> LineEnd {
        match self {
            LineStatus::Newline => LineEnd::Newline,
            LineStatus::End => LineEnd::End,
            LineStatus::Failed(why) => LineEnd::Failed(why@),
            LineStatus::Unexpected => LineEnd::Unexpected,
            LineStatus::Exhausted => LineEnd::Exhausted,
        }
    }
}

/// A line as read from a file: its bytes, how the reading ended, and the
/// requests made of the host by then.
pub struct LineRead {
    pub bytes: Seq<u8>,
    pub end: LineEnd,
    pub sent: Seq<RequestView>,
}

/// The reading of a line from `file` after the bytes `got`: the host is
/// asked for one byte after the other, up to and including a newline, or up
/// to the end of the file, or up to a failure; at most `rounds` bytes are
/// read after the first.
pub open spec fn read_line(
    file: nat,
    got: Seq<u8>,
    sent: Seq<RequestView>,
    replies: Seq<ReplyView>,
    rounds: nat,
) -> LineRead
    decreases rounds,
{
    let asked = sent.push(RequestView::ReadByte { file });
    match reply_at(replies, sent.len()) {
        ReplyView::Byte(byte) => if byte == 10 {
            LineRead { bytes: got.push(byte), end: LineEnd::Newline, sent: asked }
        } else if rounds == 0 {
            LineRead { bytes: got.push(byte), end: LineEnd::Exhausted, sent: asked }
        } else {
            read_line(file, got.push(byte), asked, replies, (rounds - 1) as nat)
        },
        ReplyView::End => LineRead { bytes: got, end: LineEnd::End, sent: asked },
        ReplyView::Failed(why) => LineRead { bytes: got, end: LineEnd::Failed(why), sent: asked },
        _ => LineRead { bytes: got, end: LineEnd::Unexpected, sent: asked },
    }
}

/// What `fgets` returns for a line as read from `file`, and the flags of the
/// files after it: a failure sets the error flag and is an error.
pub open spec fn line_answer(
    files: Seq<FileState>,
    file: nat,
    bytes: Seq<u8>,
    end: LineEnd,
) -> Outcome {
    match end {
        LineEnd::Newline => line_outcome(files, file, bytes, false),
        LineEnd::End => line_outcome(files, file, bytes, true),
        LineEnd::Failed(why) => Outcome {
            value: ObjectView::Error("fgets error: "@ + why),
            files: with_error(files, file),
        },
        LineEnd::Unexpected => Outcome {
            value: ObjectView::Error("fgets error: unexpected answer"@),
            files: with_error(files, file),
        },
        LineEnd::Exhausted => Outcome {
            value: ObjectView::Error("evaluation budget exhausted"@),
            files,
        },
    }
}

/// What a line read from `file` comes to: the end-of-file flag is set where
/// the end was met; the line is returned as a string, but `Null` where it
/// is empty and the flag is set.
pub open spec fn line_outcome(files: Seq<FileState>, file: nat, bytes: Seq<u8>, ended: bool) -> Outcome {
    let eof = state_of(files, file).eof || ended;
    Outcome {
        value: if bytes.len() == 0 && eof {
            ObjectView::Null
        } else {
            ObjectView::String(latin1(bytes))
        },
        files: with_eof(files, file, eof),
    }
}

/// What a call of `builtin` comes to, once the host has answered `reply` to
/// its request `request`. An answer that reports a failure, or that is not
/// of the kind that the request calls for, is a failure.
pub open spec fn answer_of(
    builtin: Builtin,
    request: RequestView,
    files: Seq<FileState>,
    reply: ReplyView,
) -> Outcome {
    match request {
        RequestView::Print(_) => Outcome { value: ObjectView::Null, files },
        RequestView::Open { file, path, create } => match reply {
            ReplyView::Failed(why) => Outcome {
                value: ObjectView::Error("fopen failed: "@ + why),
                files,
            },
            _ => Outcome {
                value: ObjectView::File(files.len()),
                files: files.push(FileState { eof: false, error: false }),
            },
        },
        RequestView::Write { file, text } => match reply {
            ReplyView::Failed(why) => Outcome {
                value: ObjectView::Error(write_failure(builtin, why)),
                files: with_error(files, file),
            },
            _ => Outcome { value: ObjectView::Null, files },
        },
        RequestView::ReadByte { file } => match reply {
            ReplyView::Byte(byte) => Outcome {
                value: ObjectView::String(seq![byte as char]),
                files,
            },
            ReplyView::End => Outcome { value: ObjectView::Null, files: with_eof(files, file, true) },
            _ => Outcome { value: ObjectView::Null, files: with_error(files, file) },
        },
        RequestView::Tell { file } => match reply {
            ReplyView::Position(offset) => Outcome {
                value: ObjectView::Integer(as_signed(offset)),
                files,
            },
            _ => Outcome { value: ObjectView::Integer(-1i64), files },
        },
        RequestView::Seek { file, offset, whence } => if builtin is Rewind {
            Outcome {
                value: ObjectView::Null,
                files: with_state(files, file, FileState { eof: false, error: false }),
            }
        } else {
            match reply {
                ReplyView::Failed(_) => Outcome {
                    value: ObjectView::Integer(-1i64),
                    files: with_error(files, file),
                },
                _ => Outcome { value: ObjectView::Integer(0), files: with_eof(files, file, false) },
            }
        },
        RequestView::Remove(_) => match reply {
            ReplyView::Failed(why) => Outcome {
                value: ObjectView::Error("remove failed: "@ + why),
                files,
            },
            _ => Outcome { value: ObjectView::Null, files },
        },
        RequestView::Rename(_, _) => match reply {
            ReplyView::Failed(why) => Outcome {
                value: ObjectView::Error("rename failed: "@ + why),
                files,
            },
            _ => Outcome { value: ObjectView::Null, files },
        },
        RequestView::ReadInput => match reply {
            ReplyView::Byte(byte) => Outcome {
                value: ObjectView::String(seq![byte as char]),
                files,
            },
            ReplyView::End => Outcome { value: ObjectView::Null, files },
            _ => Outcome { value: ObjectView::Error("getchar read error"@), files },
        },
    }
}

// ---------------------------------------------------------------------------
// The builtins
// ---------------------------------------------------------------------------

/// The plan to return an error with the message `message`.
fn refused(message: String) -> (r: Planned)
    ensures
        r@ == refuse(message@),
{
    Planned::Return(Object::Error(message))
}

/// The plan to return an error with the message `message`.
fn refused_with(message: &str) -> (r: Planned)
    ensures
        r@ == refuse(message@),
{
    Planned::Return(Object::Error(String::from_str(message)))
}

/// The handle of the open file that `arg` is, if it is one.
fn file_arg(arg: &Object, files: &Vec<FileState>) -> (r: Option<usize>)
    ensures
        match r {
            Some(handle) => file_of(arg@, files@) == Some(handle as nat) && handle < files.len(),
            None => file_of(arg@, files@) is None,
        },
{
    match arg {
        Object::File(handle) => if *handle < files.len() {
            Some(*handle)
        } else {
            None
        },
        _ => None,
    }
}

/// The first character of `text`, if it has one.
fn first_char(text: &String) -> (r: Option<char>)
    ensures
        match r {
            Some(c) => text@.len() > 0 && c == text@[0],
            None => text@.len() == 0,
        },
{
    if text.as_str().is_empty() {
        None
    } else {
        Some(text.as_str().get_char(0))
    }
}

/// The plan of `puts`.
fn plan_puts(args: &Vec<Object>, files: &Vec<FileState>) -> (r: Planned)
    ensures
        r@ == plan_of(Builtin::Puts, objects_view(args@), files@),
{
    if args.len() != 1 {
        return refused(
            joined("puts expected 1 argument, got ", count_to_string(args.len()).as_str()),
        );
    }
    let mut text = args[0].inspect();
    text.push('\n');
    Planned::Ask(Request::Print(text))
}

/// The plan of `putchar`.
fn plan_putchar(args: &Vec<Object>, files: &Vec<FileState>) -> (r: Planned)
    ensures
        r@ == plan_of(Builtin::Putchar, objects_view(args@), files@),
{
    if args.len() != 1 {
        return refused_with("putchar expected 1 argument");
    }
    match first_char(&args[0].inspect()) {
        Some(c) => Planned::Ask(Request::Print(char_to_string(c))),
        None => Planned::Return(Object::Null),
    }
}

/// The plan of `fopen`.
fn plan_fopen(args: &Vec<Object>, files: &Vec<FileState>) -> (r: Planned)
    ensures
        r@ == plan_of(Builtin::Fopen, objects_view(args@), files@),
{
    if args.len() != 2 {
        return refused(
            joined("fopen expected 2 arguments, got ", count_to_string(args.len()).as_str()),
        );
    }
    match (&args[0], &args[1]) {
        (Object::String(path), Object::String(mode)) => {
            let create = *mode == String::from_str("w");
            Planned::Ask(Request::Open { file: files.len(), path: path.clone(), create })
        },
        (Object::String(_), _) => refused_with("fopen second argument must be a string mode"),
        _ => refused_with("fopen first argument must be a string path"),
    }
}

/// The plan of `fputs`.
fn plan_fputs(args: &Vec<Object>, files: &Vec<FileState>) -> (r: Planned)
    ensures
        r@ == plan_of(Builtin::Fputs, objects_view(args@), files@),
{
    if args.len() != 2 {
        return refused_with("fputs expected 2 arguments");
    }
    match &args[0] {
        Object::String(content) => match file_arg(&args[1], files) {
            Some(file) => Planned::Ask(Request::Write { file, text: content.clone() }),
            None => refused_with("fputs second arg must be file"),
        },
        _ => refused_with("fputs first arg must be string"),
    }
}

/// The plan of `fputc` and of `putc`.
fn plan_fputc(builtin: Builtin, args: &Vec<Object>, files: &Vec<FileState>) -> (r: Planned)
    requires
        builtin is Fputc || builtin is Putc,
    ensures
        r@ == plan_of(builtin, objects_view(args@), files@),
{
    if args.len() != 2 {
        return refused(joined(builtin.name_string().as_str(), " expected 2 arguments"));
    }
    match first_char(&args[0].inspect()) {
        Some(c) => match file_arg(&args[1], files) {
            Some(file) => Planned::Ask(Request::Write { file, text: char_to_string(c) }),
            None => refused(joined(builtin.name_string().as_str(), " arg must be file")),
        },
        None => Planned::Return(Object::Null),
    }
}

/// The plan of `fprintf`.
fn plan_fprintf(args: &Vec<Object>, files: &Vec<FileState>) -> (r: Planned)
    ensures
        r@ == plan_of(Builtin::Fprintf, objects_view(args@), files@),
{
    if args.len() < 2 {
        return refused_with("fprintf expected at least file and fmt");
    }
    match file_arg(&args[0], files) {
        Some(file) => Planned::Ask(Request::Write { file, text: format_output(args, 1) }),
        None => refused_with("fprintf first arg must be file"),
    }
}

/// The plan of a builtin that takes one file and asks `request` of it:
/// `fgetc`, `getc`, `ftell`, `rewind`.
fn plan_on_file(
    args: &Vec<Object>,
    files: &Vec<FileState>,
    count: String,
    kind: String,
    request: Request,
) -> (r: Planned)
    requires
        match request@ {
            RequestView::ReadByte { file } => true,
            RequestView::Tell { file } => true,
            RequestView::Seek { file, offset, whence } => true,
            _ => false,
        },
    ensures
        r@ == if args.len() != 1 {
            refuse(count@)
        } else {
            match file_of(args@[0]@, files@) {
                Some(file) => Plan::Ask(
                    match request@ {
                        RequestView::ReadByte { file: _ } => RequestView::ReadByte { file },
                        RequestView::Tell { file: _ } => RequestView::Tell { file },
                        RequestView::Seek { file: _, offset, whence } => RequestView::Seek {
                            file,
                            offset,
                            whence,
                        },
                        other => other,
                    },
                ),
                None => refuse(kind@),
            }
        },
{
    if args.len() != 1 {
        return refused(count);
    }
    match file_arg(&args[0], files) {
        Some(file) => Planned::Ask(
            match request {
                Request::ReadByte { file: _ } => Request::ReadByte { file },
                Request::Tell { file: _ } => Request::Tell { file },
                Request::Seek { file: _, offset, whence } => Request::Seek { file, offset, whence },
                other => other,
            },
        ),
        None => refused(kind),
    }
}

/// The plan of `fgets`.
fn plan_fgets(args: &Vec<Object>, files: &Vec<FileState>) -> (r: Planned)
    ensures
        r@ == plan_of(Builtin::Fgets, objects_view(args@), files@),
{
    if args.len() != 1 {
        return refused_with("fgets expected 1 argument");
    }
    match file_arg(&args[0], files) {
        Some(file) => Planned::Line(file),
        None => refused_with("fgets arg must be file"),
    }
}

/// The plan of `feof` and of `ferror`.
fn plan_flag(builtin: Builtin, args: &Vec<Object>, files: &Vec<FileState>) -> (r: Planned)
    requires
        builtin is Feof || builtin is Ferror,
    ensures
        r@ == plan_of(builtin, objects_view(args@), files@),
{
    if args.len() != 1 {
        return match builtin {
            Builtin::Feof => refused_with("feof expected 1 arg"),
            _ => refused_with("ferror expected 1 arg"),
        };
    }
    match file_arg(&args[0], files) {
        Some(file) => match builtin {
            Builtin::Feof => Planned::Return(Object::Boolean(files[file].eof)),
            _ => Planned::Return(Object::Boolean(files[file].error)),
        },
        None => match builtin {
            Builtin::Feof => refused_with("feof arg must be file"),
            _ => refused_with("ferror arg must be file"),
        },
    }
}

/// The plan of `fseek`.
fn plan_fseek(args: &Vec<Object>, files: &Vec<FileState>) -> (r: Planned)
    ensures
        r@ == plan_of(Builtin::Fseek, objects_view(args@), files@),
{
    if args.len() != 3 {
        return refused_with("fseek expected 3 args");
    }
    match file_arg(&args[0], files) {
        Some(file) => match (&args[1], &args[2]) {
            (Object::Integer(offset), Object::Integer(whence)) => {
                let from = if *whence == 0 {
                    Whence::Start
                } else if *whence == 1 {
                    Whence::Current
                } else if *whence == 2 {
                    Whence::End
                } else {
                    return refused_with("invalid whence");
                };
                Planned::Ask(Request::Seek { file, offset: *offset, whence: from })
            },
            (Object::Integer(_), _) => refused_with("fseek whence must be int"),
            _ => refused_with("fseek offset must be int"),
        },
        None => refused_with("fseek arg must be file"),
    }
}

/// The plan of `remove`.
fn plan_remove(args: &Vec<Object>, files: &Vec<FileState>) -> (r: Planned)
    ensures
        r@ == plan_of(Builtin::Remove, objects_view(args@), files@),
{
    if args.len() != 1 {
        return refused_with("remove expected 1 arg");
    }
    match &args[0] {
        Object::String(path) => Planned::Ask(Request::Remove(path.clone())),
        _ => refused_with("remove arg must be string"),
    }
}

/// The plan of `rename`.
fn plan_rename(args: &Vec<Object>, files: &Vec<FileState>) -> (r: Planned)
    ensures
        r@ == plan_of(Builtin::Rename, objects_view(args@), files@),
{
    if args.len() != 2 {
        return refused_with("rename expected 2 args");
    }
    match (&args[0], &args[1]) {
        (Object::String(from), Object::String(to)) => Planned::Ask(
            Request::Rename(from.clone(), to.clone()),
        ),
        (Object::String(_), _) => refused_with("rename new must be string"),
        _ => refused_with("rename old must be string"),
    }
}

/// What a call of `builtin` with `args` does first: it checks the
/// arguments, and returns at once or names what to ask of the host.
pub fn plan(builtin: Builtin, args: &Vec<Object>, files: &Vec<FileState>) -> (r: Planned)
    ensures
        r@ == plan_of(builtin, objects_view(args@), files@),
{
    match builtin {
        Builtin::Puts => plan_puts(args, files),
        Builtin::Putchar => plan_putchar(args, files),
        Builtin::Printf => {
            let text = format_output(args, 0);
            assert(objects_view(args@).skip(0) =~= objects_view(args@));
            Planned::Ask(Request::Print(text))
        },
        Builtin::Sprintf => {
            let text = format_output(args, 0);
            assert(objects_view(args@).skip(0) =~= objects_view(args@));
            Planned::Return(Object::String(text))
        },
        Builtin::Fopen => plan_fopen(args, files),
        Builtin::Fclose => Planned::Return(Object::Null),
        Builtin::Fputs => plan_fputs(args, files),
        Builtin::Fputc => plan_fputc(builtin, args, files),
        Builtin::Putc => plan_fputc(builtin, args, files),
        Builtin::Fprintf => plan_fprintf(args, files),
        Builtin::Fgets => plan_fgets(args, files),
        Builtin::Fgetc => plan_on_file(
            args,
            files,
            joined(builtin.name_string().as_str(), " expected 1 arg"),
            joined(builtin.name_string().as_str(), " arg must be file"),
            Request::ReadByte { file: 0 },
        ),
        Builtin::Getc => plan_on_file(
            args,
            files,
            joined(builtin.name_string().as_str(), " expected 1 arg"),
            joined(builtin.name_string().as_str(), " arg must be file"),
            Request::ReadByte { file: 0 },
        ),
        Builtin::Feof => plan_flag(builtin, args, files),
        Builtin::Ferror => plan_flag(builtin, args, files),
        Builtin::Ftell => plan_on_file(
            args,
            files,
            String::from_str("ftell expected 1 arg"),
            String::from_str("ftell arg must be file"),
            Request::Tell { file: 0 },
        ),
        Builtin::Fseek => plan_fseek(args, files),
        Builtin::Rewind => plan_on_file(
            args,
            files,
            String::from_str("rewind expected 1 arg"),
            String::from_str("rewind arg must be file"),
            Request::Seek { file: 0, offset: 0, whence: Whence::Start },
        ),
        Builtin::Remove => plan_remove(args, files),
        Builtin::Rename => plan_rename(args, files),
        Builtin::Getchar => if args.len() != 0 {
            refused_with("getchar expected 0 args")
        } else {
            Planned::Ask(Request::ReadInput)
        },
    }
}

/// Replaces the flags of `file` by `state`.
fn set_state(files: &mut Vec<FileState>, file: usize, state: FileState)
    ensures
        final(files)@ == with_state(old(files)@, file as nat, state),
{
    if file < files.len() {
        files[file] = state;
    }
}

/// The flags of `file`.
fn get_state(files: &Vec<FileState>, file: usize) -> (r: FileState)
    ensures
        r == state_of(files@, file as nat),
{
    if file < files.len() {
        files[file]
    } else {
        FileState { eof: false, error: false }
    }
}

/// Sets the error flag of `file`.
fn set_error(files: &mut Vec<FileState>, file: usize)
    ensures
        final(files)@ == with_error(old(files)@, file as nat),
{
    let state = get_state(files, file);
    set_state(files, file, FileState { eof: state.eof, error: true });
}

/// Sets the end-of-file flag of `file` to `eof`.
fn set_eof(files: &mut Vec<FileState>, file: usize, eof: bool)
    ensures
        final(files)@ == with_eof(old(files)@, file as nat, eof),
{
    let state = get_state(files, file);
    set_state(files, file, FileState { eof, error: state.error });
}

/// The string whose characters stand for `bytes`, byte by byte.
fn bytes_to_string(bytes: &Vec<u8>) -> (r: String)
    ensures
        r@ == latin1(bytes@),
{
    let mut r = String::new();
    let mut i: usize = 0;
    while i < bytes.len()
        invariant
            i <= bytes.len(),
            r@ == latin1(bytes@).take(i as int),
        decreases bytes.len() - i,
    {
        r.push(bytes[i] as char);
        assert(latin1(bytes@).take(i + 1) =~= latin1(bytes@).take(i as int).push(
            bytes@[i as int] as char,
        ));
        i += 1;
    }
    assert(latin1(bytes@).take(bytes.len() as int) =~= latin1(bytes@));
    r
}

/// What a line read from `file` comes to.
fn line_value(files: &mut Vec<FileState>, file: usize, bytes: &Vec<u8>, ended: bool) -> (r:
    Object)
    ensures
        r@ == line_outcome(old(files)@, file as nat, bytes@, ended).value,
        final(files)@ == line_outcome(old(files)@, file as nat, bytes@, ended).files,
{
    let eof = get_state(files, file).eof || ended;
    set_eof(files, file, eof);
    if bytes.len() == 0 && eof {
        Object::Null
    } else {
        Object::String(bytes_to_string(bytes))
    }
}

/// What `fgets` returns for a line as read from `file`; the flags of the
/// files are brought up to date.
pub fn answer_line(files: &mut Vec<FileState>, file: usize, bytes: &Vec<u8>, status: LineStatus) -> (r:
    Object)
    ensures
        r@ == line_answer(old(files)@, file as nat, bytes@, status@).value,
        final(files)@ == line_answer(old(files)@, file as nat, bytes@, status@).files,
{
    match status {
        LineStatus::Newline => line_value(files, file, bytes, false),
        LineStatus::End => line_value(files, file, bytes, true),
        LineStatus::Failed(why) => {
            set_error(files, file);
            Object::Error(joined("fgets error: ", why.as_str()))
        },
        LineStatus::Unexpected => {
            set_error(files, file);
            Object::Error(String::from_str("fgets error: unexpected answer"))
        },
        LineStatus::Exhausted => Object::Error(String::from_str("evaluation budget exhausted")),
    }
}

/// The 64-bit signed integer with the bit pattern of `offset`.
fn signed(offset: u64) -> (r: i64)
    ensures
        r == as_signed(offset),
{
    if offset <= 9223372036854775807u64 {
        offset as i64
    } else {
        ((offset - 9223372036854775808u64) as i64) + i64::MIN
    }
}

/// What a call of `builtin` returns, once the host has answered `reply` to
/// its request `request`; the flags of the files are brought up to date.
pub fn answer(builtin: Builtin, request: &Request, files: &mut Vec<FileState>, reply: Reply) -> (r:
    Object)
    ensures
        r@ == answer_of(builtin, request@, old(files)@, reply@).value,
        final(files)@ == answer_of(builtin, request@, old(files)@, reply@).files,
{
    match request {
        Request::Print(_) => Object::Null,
        Request::Open { file, path, create } => match reply {
            Reply::Failed(why) => Object::Error(joined("fopen failed: ", why.as_str())),
            _ => {
                let handle = files.len();
                files.push(FileState { eof: false, error: false });
                Object::File(handle)
            },
        },
        Request::Write { file, text } => match reply {
            Reply::Failed(why) => {
                set_error(files, *file);
                match builtin {
                    Builtin::Fprintf => Object::Error(String::from_str("write error")),
                    _ => {
                        let mut message = joined(builtin.name_string().as_str(), " failed: ");
                        message.append(why.as_str());
                        Object::Error(message)
                    },
                }
            },
            _ => Object::Null,
        },
        Request::ReadByte { file } => match reply {
            Reply::Byte(byte) => Object::String(char_to_string(byte as char)),
            Reply::End => {
                set_eof(files, *file, true);
                Object::Null
            },
            _ => {
                set_error(files, *file);
                Object::Null
            },
        },
        Request::Tell { file } => match reply {
            Reply::Position(offset) => Object::Integer(signed(offset)),
            _ => Object::Integer(-1),
        },
        Request::Seek { file, offset, whence } => match builtin {
            Builtin::Rewind => {
                set_state(files, *file, FileState { eof: false, error: false });
                Object::Null
            },
            _ => match reply {
                Reply::Failed(_) => {
                    set_error(files, *file);
                    Object::Integer(-1)
                },
                _ => {
                    set_eof(files, *file, false);
                    Object::Integer(0)
                },
            },
        },
        Request::Remove(_) => match reply {
            Reply::Failed(why) => Object::Error(joined("remove failed: ", why.as_str())),
            _ => Object::Null,
        },
        Request::Rename(_, _) => match reply {
            Reply::Failed(why) => Object::Error(joined("rename failed: ", why.as_str())),
            _ => Object::Null,
        },
        Request::ReadInput => match reply {
            Reply::Byte(byte) => Object::String(char_to_string(byte as char)),
            Reply::End => Object::Null,
            _ => Object::Error(String::from_str("getchar read error")),
        },
    }
}

// ---------------------------------------------------------------------------
// The initial environment
// ---------------------------------------------------------------------------

/// The number of builtins.
pub open spec fn builtin_count() -> nat {
    21
}

/// The builtins, in the order in which they are bound.
pub open spec fn builtin_at(i: nat) -> Builtin {
    if i == 0 {
        Builtin::Puts
    } else if i == 1 {
        Builtin::Putchar
    } else if i == 2 {
        Builtin::Printf
    } else if i == 3 {
        Builtin::Sprintf
    } else if i == 4 {
        Builtin::Fopen
    } else if i == 5 {
        Builtin::Fclose
    } else if i == 6 {
        Builtin::Fputs
    } else if i == 7 {
        Builtin::Fputc
    } else if i == 8 {
        Builtin::Fprintf
    } else if i == 9 {
        Builtin::Fgets
    } else if i == 10 {
        Builtin::Fgetc
    } else if i == 11 {
        Builtin::Feof
    } else if i == 12 {
        Builtin::Ferror
    } else if i == 13 {
        Builtin::Ftell
    } else if i == 14 {
        Builtin::Fseek
    } else if i == 15 {
        Builtin::Rewind
    } else if i == 16 {
        Builtin::Remove
    } else if i == 17 {
        Builtin::Rename
    } else if i == 18 {
        Builtin::Getchar
    } else if i == 19 {
        Builtin::Getc
    } else {
        Builtin::Putc
    }
}

/// The builtin number `i`.
fn nth_builtin(i: usize) -> (r: Builtin)
    ensures
        r == builtin_at(i as nat),
{
    if i == 0 {
        Builtin::Puts
    } else if i == 1 {
        Builtin::Putchar
    } else if i == 2 {
        Builtin::Printf
    } else if i == 3 {
        Builtin::Sprintf
    } else if i == 4 {
        Builtin::Fopen
    } else if i == 5 {
        Builtin::Fclose
    } else if i == 6 {
        Builtin::Fputs
    } else if i == 7 {
        Builtin::Fputc
    } else if i == 8 {
        Builtin::Fprintf
    } else if i == 9 {
        Builtin::Fgets
    } else if i == 10 {
        Builtin::Fgetc
    } else if i == 11 {
        Builtin::Feof
    } else if i == 12 {
        Builtin::Ferror
    } else if i == 13 {
        Builtin::Ftell
    } else if i == 14 {
        Builtin::Fseek
    } else if i == 15 {
        Builtin::Rewind
    } else if i == 16 {
        Builtin::Remove
    } else if i == 17 {
        Builtin::Rename
    } else if i == 18 {
        Builtin::Getchar
    } else if i == 19 {
        Builtin::Getc
    } else {
        Builtin::Putc
    }
}

/// The scopes after the builtins from number `from` on are bound, each
/// under its name, in the global scope.
pub open spec fn registered(scopes: Seq<crate::env::ScopeView>, from: nat) -> Seq<
    crate::env::ScopeView,
>
    decreases builtin_count() - from,
{
    if from < builtin_count() {
        registered(
            bind(scopes, 0, builtin_at(from).name(), ObjectView::Builtin(builtin_at(from))),
            from + 1,
        )
    } else {
        scopes
    }
}

/// Binds every builtin under its name in the global scope of `env`.
pub fn register_stdlib(env: &mut Environment)
    requires
        old(env).wf(),
    ensures
        final(env).wf(),
        final(env)@ == registered(old(env)@, 0),
{
    proof {
        env.lemma_chained();
    }
    let mut i: usize = 0;
    while i < 21
        invariant
            i <= 21,
            env.wf(),
            env@.len() >= 1,
            registered(old(env)@, 0) == registered(env@, i as nat),
        decreases 21 - i,
    {
        let builtin = nth_builtin(i);
        env.insert(0, builtin.name_string(), Object::Builtin(builtin));
        i += 1;
    }
}

/// The scopes of the initial environment: the global scope alone, with the
/// builtins and the constants `null`, `true` and `false` bound.
pub open spec fn initial_scopes() -> Seq<crate::env::ScopeView> {
    let empty = seq![
        crate::env::ScopeView { store: Map::empty(), outer: None, captured: false },
    ];
    bind(
        bind(
            bind(registered(empty, 0), 0, "null"@, ObjectView::Null),
            0,
            "true"@,
            ObjectView::Boolean(true),
        ),
        0,
        "false"@,
        ObjectView::Boolean(false),
    )
}

/// The initial environment of a run.
pub fn bootstrap() -> (env: Environment)
    ensures
        env.wf(),
        env@ == initial_scopes(),
{
    let mut env = Environment::new();
    register_stdlib(&mut env);
    proof {
        env.lemma_chained();
    }
    env.insert(0, String::from_str("null"), Object::Null);
    env.insert(0, String::from_str("true"), Object::Boolean(true));
    env.insert(0, String::from_str("false"), Object::Boolean(false));
    env
}

} // verus!
