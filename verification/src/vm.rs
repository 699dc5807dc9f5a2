//! The VM language: memory segments, stack operators, the command
//! variants, and the parser that turns source lines into commands.

use vstd::prelude::*;
use vstd::string::StrSliceExecFns;
use vstd::string::StringExecFns;
use crate::text;

verus! {

broadcast use vstd::string::group_string_axioms;

/// The eight memory segments of the VM.
#[derive(Debug, Clone, Copy, PartialEq, Eq, Structural)]
pub enum Segment {
    Argument,
    Local,
    Static,
    This,
    That,
    Constant,
    Pointer,
    Temp,
}

/// The nine arithmetic and logical stack operators.
#[derive(Debug, Clone, Copy, PartialEq, Eq, Structural)]
pub enum Operator {
    Add,
    Sub,
    Neg,
    Eq,
    Gt,
    Lt,
    And,
    Or,
    Not,
}

/// One VM command.
pub enum Command {
    Arithmetic(Operator),
    Push(Segment, i16),
    Pop(Segment, i16),
    Label(String),
    GoTo(String),
    IfGoTo(String),
    Call(String, i16),
    Function(String, i16),
    Return,
}

/// The mathematical shape of a command: names as character sequences.
pub enum CommandView {
    Arithmetic(Operator),
    Push(Segment, i16),
    Pop(Segment, i16),
    Label(Seq<char>),
    GoTo(Seq<char>),
    IfGoTo(Seq<char>),
    Call(Seq<char>, i16),
    Function(Seq<char>, i16),
    Return,
}

impl View for Command {
    type V = CommandView;

    open spec fn view(&self) -> CommandView {
        match self {
            Command::Arithmetic(op) => CommandView::Arithmetic(*op),
            Command::Push(seg, i) => CommandView::Push(*seg, *i),
            Command::Pop(seg, i) => CommandView::Pop(*seg, *i),
            Command::Label(l) => CommandView::Label(l@),
            Command::GoTo(l) => CommandView::GoTo(l@),
            Command::IfGoTo(l) => CommandView::IfGoTo(l@),
            Command::Call(f, n) => CommandView::Call(f@, *n),
            Command::Function(f, n) => CommandView::Function(f@, *n),
            Command::Return => CommandView::Return,
        }
    }
}

/// The name of a segment as it appears in VM text.
pub open spec fn spec_segment_name(s: Segment) -> Seq<char> {
    match s {
        Segment::Argument => "argument"@,
        Segment::Local => "local"@,
        Segment::Static => "static"@,
        Segment::This => "this"@,
        Segment::That => "that"@,
        Segment::Constant => "constant"@,
        Segment::Pointer => "pointer"@,
        Segment::Temp => "temp"@,
    }
}

/// The name of an operator as it appears in VM text.
pub open spec fn spec_operator_name(op: Operator) -> Seq<char> {
    match op {
        Operator::Add => "add"@,
        Operator::Sub => "sub"@,
        Operator::Neg => "neg"@,
        Operator::Eq => "eq"@,
        Operator::Gt => "gt"@,
        Operator::Lt => "lt"@,
        Operator::And => "and"@,
        Operator::Or => "or"@,
        Operator::Not => "not"@,
    }
}

/// The segment a subcommand word names, if any.
pub open spec fn spec_segment_of(w: Seq<char>) -> Option<Segment> {
    if w == "argument"@ { Some(Segment::Argument) }
    else if w == "local"@ { Some(Segment::Local) }
    else if w == "static"@ { Some(Segment::Static) }
    else if w == "this"@ { Some(Segment::This) }
    else if w == "that"@ { Some(Segment::That) }
    else if w == "constant"@ { Some(Segment::Constant) }
    else if w == "pointer"@ { Some(Segment::Pointer) }
    else if w == "temp"@ { Some(Segment::Temp) }
    else { None }
}

/// Maps a subcommand word to its segment.
pub fn subcommand_to_segment(subcommand: &str) -> (r: Option<Segment>)
    ensures
        r == spec_segment_of(subcommand@),
{
    if text::str_eq(subcommand, "argument") { Some(Segment::Argument) }
    else if text::str_eq(subcommand, "local") { Some(Segment::Local) }
    else if text::str_eq(subcommand, "static") { Some(Segment::Static) }
    else if text::str_eq(subcommand, "this") { Some(Segment::This) }
    else if text::str_eq(subcommand, "that") { Some(Segment::That) }
    else if text::str_eq(subcommand, "constant") { Some(Segment::Constant) }
    else if text::str_eq(subcommand, "pointer") { Some(Segment::Pointer) }
    else if text::str_eq(subcommand, "temp") { Some(Segment::Temp) }
    else { None }
}

/// A line with any `//` comment removed.
pub open spec fn spec_strip_comment(line: Seq<char>) -> Seq<char> {
    match text::spec_find(line, "//"@) {
        Some(p) => line.subrange(0, p),
        None => line,
    }
}

/// What one line of VM text parses to: nothing for a blank or comment
/// line or any malformed line, else the command its words name.
pub open spec fn spec_command(line: Seq<char>) -> Option<CommandView> {
    let ws = text::spec_words(spec_strip_comment(line));
    if ws.len() == 0 {
        None
    } else {
        let w0 = ws[0];
        if w0 == "add"@ { Some(CommandView::Arithmetic(Operator::Add)) }
        else if w0 == "sub"@ { Some(CommandView::Arithmetic(Operator::Sub)) }
        else if w0 == "neg"@ { Some(CommandView::Arithmetic(Operator::Neg)) }
        else if w0 == "eq"@ { Some(CommandView::Arithmetic(Operator::Eq)) }
        else if w0 == "gt"@ { Some(CommandView::Arithmetic(Operator::Gt)) }
        else if w0 == "lt"@ { Some(CommandView::Arithmetic(Operator::Lt)) }
        else if w0 == "and"@ { Some(CommandView::Arithmetic(Operator::And)) }
        else if w0 == "or"@ { Some(CommandView::Arithmetic(Operator::Or)) }
        else if w0 == "not"@ { Some(CommandView::Arithmetic(Operator::Not)) }
        else if w0 == "push"@ {
            if ws.len() >= 3 {
                match (spec_segment_of(ws[1]), text::spec_parse_i16(ws[2])) {
                    (Some(seg), Some(v)) => Some(CommandView::Push(seg, v as i16)),
                    _ => None,
                }
            } else {
                None
            }
        }
        else if w0 == "pop"@ {
            if ws.len() >= 3 {
                match (spec_segment_of(ws[1]), text::spec_parse_i16(ws[2])) {
                    (Some(seg), Some(v)) => Some(CommandView::Pop(seg, v as i16)),
                    _ => None,
                }
            } else {
                None
            }
        }
        else if w0 == "label"@ {
            if ws.len() >= 2 { Some(CommandView::Label(ws[1])) } else { None }
        }
        else if w0 == "goto"@ {
            if ws.len() >= 2 { Some(CommandView::GoTo(ws[1])) } else { None }
        }
        else if w0 == "if-goto"@ {
            if ws.len() >= 2 { Some(CommandView::IfGoTo(ws[1])) } else { None }
        }
        else if w0 == "call"@ {
            if ws.len() >= 3 {
                match text::spec_parse_i16(ws[2]) {
                    Some(v) => Some(CommandView::Call(ws[1], v as i16)),
                    None => None,
                }
            } else {
                None
            }
        }
        else if w0 == "function"@ {
            if ws.len() >= 3 {
                match text::spec_parse_i16(ws[2]) {
                    Some(v) => Some(CommandView::Function(ws[1], v as i16)),
                    None => None,
                }
            } else {
                None
            }
        }
        else if w0 == "return"@ { Some(CommandView::Return) }
        else { None }
    }
}

/// Parses one line of VM text; extra words after a complete command
/// are ignored.
pub fn line_to_command(line: &str) -> (r: Option<Command>)
    ensures
        match r {
            Some(cmd) => spec_command(line@) == Some(cmd@),
            None => spec_command(line@) is None,
        },
{
    proof {
        reveal_strlit("//");
    }
    let stripped = match text::find(line, "//") {
        Some(p) => line.substring_char(0, p),
        None => line,
    };
    let ws = text::words(stripped);
    if ws.len() == 0 {
        return None;
    }
    proof {
        assert(ws.deep_view()[0] == ws@[0]@);
        assert(ws.deep_view().len() >= 2 ==> ws.deep_view()[1] == ws@[1]@);
        assert(ws.deep_view().len() >= 3 ==> ws.deep_view()[2] == ws@[2]@);
    }
    let w0 = ws[0].as_str();
    if text::str_eq(w0, "add") { Some(Command::Arithmetic(Operator::Add)) }
    else if text::str_eq(w0, "sub") { Some(Command::Arithmetic(Operator::Sub)) }
    else if text::str_eq(w0, "neg") { Some(Command::Arithmetic(Operator::Neg)) }
    else if text::str_eq(w0, "eq") { Some(Command::Arithmetic(Operator::Eq)) }
    else if text::str_eq(w0, "gt") { Some(Command::Arithmetic(Operator::Gt)) }
    else if text::str_eq(w0, "lt") { Some(Command::Arithmetic(Operator::Lt)) }
    else if text::str_eq(w0, "and") { Some(Command::Arithmetic(Operator::And)) }
    else if text::str_eq(w0, "or") { Some(Command::Arithmetic(Operator::Or)) }
    else if text::str_eq(w0, "not") { Some(Command::Arithmetic(Operator::Not)) }
    else if text::str_eq(w0, "push") {
        if ws.len() >= 3 {
            match (subcommand_to_segment(ws[1].as_str()), text::parse_i16(ws[2].as_str())) {
                (Some(seg), Some(v)) => Some(Command::Push(seg, v)),
                _ => None,
            }
        } else {
            None
        }
    }
    else if text::str_eq(w0, "pop") {
        if ws.len() >= 3 {
            match (subcommand_to_segment(ws[1].as_str()), text::parse_i16(ws[2].as_str())) {
                (Some(seg), Some(v)) => Some(Command::Pop(seg, v)),
                _ => None,
            }
        } else {
            None
        }
    }
    else if text::str_eq(w0, "label") {
        if ws.len() >= 2 { Some(Command::Label(ws[1].clone())) } else { None }
    }
    else if text::str_eq(w0, "goto") {
        if ws.len() >= 2 { Some(Command::GoTo(ws[1].clone())) } else { None }
    }
    else if text::str_eq(w0, "if-goto") {
        if ws.len() >= 2 { Some(Command::IfGoTo(ws[1].clone())) } else { None }
    }
    else if text::str_eq(w0, "call") {
        if ws.len() >= 3 {
            match text::parse_i16(ws[2].as_str()) {
                Some(v) => Some(Command::Call(ws[1].clone(), v)),
                None => None,
            }
        } else {
            None
        }
    }
    else if text::str_eq(w0, "function") {
        if ws.len() >= 3 {
            match text::parse_i16(ws[2].as_str()) {
                Some(v) => Some(Command::Function(ws[1].clone(), v)),
                None => None,
            }
        } else {
            None
        }
    }
    else if text::str_eq(w0, "return") { Some(Command::Return) }
    else { None }
}

/// How a command prints back to VM text.
pub open spec fn spec_command_text(c: CommandView) -> Seq<char> {
    match c {
        CommandView::Arithmetic(op) => spec_operator_name(op),
        CommandView::Push(seg, i) => "push "@ + spec_segment_name(seg) + " "@
            + text::spec_dec_int(i as int),
        CommandView::Pop(seg, i) => "pop "@ + spec_segment_name(seg) + " "@
            + text::spec_dec_int(i as int),
        CommandView::Label(l) => "label "@ + l,
        CommandView::GoTo(l) => "goto "@ + l,
        CommandView::IfGoTo(l) => "if-goto "@ + l,
        CommandView::Call(f, n) => "call "@ + f + " "@ + text::spec_dec_int(n as int),
        CommandView::Function(f, n) => "function "@ + f + " "@ + text::spec_dec_int(n as int),
        CommandView::Return => "return"@,
    }
}

impl Command {
    /// The command as one line of VM text, without a newline.
    pub fn to_string(&self) -> (r: String)
        ensures
            r@ == spec_command_text(self@),
    {
        match self {
            Command::Arithmetic(op) => {
                let name = match op {
                    Operator::Add => "add",
                    Operator::Sub => "sub",
                    Operator::Neg => "neg",
                    Operator::Eq => "eq",
                    Operator::Gt => "gt",
                    Operator::Lt => "lt",
                    Operator::And => "and",
                    Operator::Or => "or",
                    Operator::Not => "not",
                };
                name.to_owned()
            },
            Command::Push(seg, i) => {
                let mut r = String::from_str("push ");
                r.append(segment_name(seg));
                r.append(" ");
                text::push_dec_i16(*i, &mut r);
                proof {
                    assert(r@ =~= spec_command_text(self@));
                }
                r
            },
            Command::Pop(seg, i) => {
                let mut r = String::from_str("pop ");
                r.append(segment_name(seg));
                r.append(" ");
                text::push_dec_i16(*i, &mut r);
                proof {
                    assert(r@ =~= spec_command_text(self@));
                }
                r
            },
            Command::Label(l) => {
                let mut r = String::from_str("label ");
                r.append(l.as_str());
                r
            },
            Command::GoTo(l) => {
                let mut r = String::from_str("goto ");
                r.append(l.as_str());
                r
            },
            Command::IfGoTo(l) => {
                let mut r = String::from_str("if-goto ");
                r.append(l.as_str());
                r
            },
            Command::Call(f, n) => {
                let mut r = String::from_str("call ");
                r.append(f.as_str());
                r.append(" ");
                text::push_dec_i16(*n, &mut r);
                proof {
                    assert(r@ =~= spec_command_text(self@));
                }
                r
            },
            Command::Function(f, n) => {
                let mut r = String::from_str("function ");
                r.append(f.as_str());
                r.append(" ");
                text::push_dec_i16(*n, &mut r);
                proof {
                    assert(r@ =~= spec_command_text(self@));
                }
                r
            },
            Command::Return => "return".to_owned(),
        }
    }
}

/// The segment's name in VM text.
pub fn segment_name(seg: &Segment) -> (r: &'static str)
    ensures
        r@ == spec_segment_name(*seg),
{
    match seg {
        Segment::Argument => "argument",
        Segment::Local => "local",
        Segment::Static => "static",
        Segment::This => "this",
        Segment::That => "that",
        Segment::Constant => "constant",
        Segment::Pointer => "pointer",
        Segment::Temp => "temp",
    }
}

/// The first command at or after line `i`, with the index just past it.
pub open spec fn spec_next_command(lines: Seq<Seq<char>>, i: int) -> Option<(int, CommandView)>
    decreases lines.len() - i,
{
    if i < 0 || i >= lines.len() {
        None
    } else {
        match spec_command(lines[i]) {
            Some(c) => Some((i + 1, c)),
            None => spec_next_command(lines, i + 1),
        }
    }
}

/// A pull parser over the lines of one VM file: each call to `next`
/// yields the next command, skipping blank and comment lines.
pub struct Parser {
    lines: Vec<String>,
    index: usize,
}

impl Parser {
    pub closed spec fn spec_lines(&self) -> Seq<Seq<char>> {
        self.lines.deep_view()
    }

    pub closed spec fn spec_index(&self) -> int {
        self.index as int
    }

    pub open spec fn wf(&self) -> bool {
        0 <= self.spec_index() <= self.spec_lines().len()
    }

    pub fn new(lines: Vec<String>) -> (r: Parser)
        ensures
            r.wf(),
            r.spec_lines() == lines.deep_view(),
            r.spec_index() == 0,
    {
        Parser { lines, index: 0 }
    }

    /// The next command in the file, if any line from the current
    /// position on parses to one.
    pub fn next(&mut self) -> (r: Option<Command>)
        requires
            old(self).wf(),
        ensures
            final(self).wf(),
            final(self).spec_lines() == old(self).spec_lines(),
            match r {
                Some(cmd) => spec_next_command(old(self).spec_lines(), old(self).spec_index())
                    matches Some((ni, cv)) && cv == cmd@ && final(self).spec_index() == ni,
                None => spec_next_command(old(self).spec_lines(), old(self).spec_index())
                    is None,
            },
    {
        let n = self.lines.len();
        while self.index < n
            invariant
                0 <= self.index <= n,
                n == self.lines.len(),
                self.lines == old(self).lines,
                spec_next_command(old(self).spec_lines(), old(self).spec_index())
                    == spec_next_command(self.spec_lines(), self.index as int),
            decreases n - self.index,
        {
            proof {
                assert(self.spec_lines()[self.index as int] == self.lines@[self.index as int]@);
            }
            let r = line_to_command(self.lines[self.index].as_str());
            self.index = self.index + 1;
            match r {
                Some(cmd) => {
                    return Some(cmd);
                },
                None => {},
            }
        }
        None
    }
}

/// Where the translator reads from: a single file or a directory of
/// files.
pub enum Source {
    File(String),
    Directory(String),
}

/// The input source and output path of one translator run.
pub struct Config {
    pub source: Source,
    pub destination: String,
}

/// The last path component of `s` once trailing separators are
/// dropped.
pub open spec fn spec_dir_name(s: Seq<char>) -> Seq<char> {
    text::spec_last_component(spec_drop_trailing_slashes(s))
}

pub open spec fn spec_drop_trailing_slashes(s: Seq<char>) -> Seq<char>
    decreases s.len(),
{
    if s.len() > 0 && s.last() == '/' {
        spec_drop_trailing_slashes(s.drop_last())
    } else {
        s
    }
}

/// Drops trailing '/' separators.
pub fn drop_trailing_slashes(s: &str) -> (r: &str)
    ensures
        r@ == spec_drop_trailing_slashes(s@),
{
    let len = s.unicode_len();
    let mut end: usize = len;
    proof {
        assert(s@.subrange(0, len as int) =~= s@);
    }
    while end > 0 && s.get_char(end - 1) == '/'
        invariant
            0 <= end <= len,
            len == s@.len(),
            forall|k: int| end <= k < len ==> s@[k] == '/',
            spec_drop_trailing_slashes(s@) == spec_drop_trailing_slashes(s@.subrange(0, end as int)),
        decreases end,
    {
        proof {
            assert(s@.subrange(0, end as int).drop_last() =~= s@.subrange(0, end - 1));
        }
        end = end - 1;
    }
    let r = s.substring_char(0, end);
    proof {
        assert(spec_drop_trailing_slashes(r@) == r@);
    }
    r
}

impl Config {
    /// Reads the source argument (the element after the program name)
    /// and derives the output path: a `.vm` file maps to the same name
    /// with `.asm`; a directory `d/` maps to `d/<name>.asm` after its
    /// last component; anything else is refused.
    pub fn new(args: Vec<String>) -> (r: Result<Config, &'static str>)
        ensures
            match r {
                Ok(c) => args@.len() >= 2 && ({
                    let a = args@[1]@;
                    ||| (a.len() >= 3 && a.subrange(a.len() - 3, a.len() as int) == ".vm"@
                        && (c.source matches Source::File(f)
                            && f@ == a
                            && c.destination@ == text::spec_replace_all(a, ".vm"@, ".asm"@)))
                    ||| (!(a.len() >= 3 && a.subrange(a.len() - 3, a.len() as int) == ".vm"@)
                        && a.len() >= 1 && a.last() == '/'
                        && (c.source matches Source::Directory(d)
                            && d@ == a
                            && c.destination@ == a + spec_dir_name(a) + ".asm"@))
                }),
                Err(m) => {
                    if args@.len() < 2 {
                        m@ == "missing filename"@
                    } else {
                        let a = args@[1]@;
                        !(a.len() >= 3 && a.subrange(a.len() - 3, a.len() as int) == ".vm"@)
                            && !(a.len() >= 1 && a.last() == '/')
                            && m@ == "Invalid source"@
                    }
                },
            },
    {
        proof {
            reveal_strlit(".vm");
            reveal_strlit("/");
        }
        if args.len() < 2 {
            return Err("missing filename");
        }
        let value = args[1].clone();
        if text::ends_with(value.as_str(), ".vm") {
            let destination = text::replace_all(value.as_str(), ".vm", ".asm");
            Ok(Config { source: Source::File(value), destination })
        } else if text::ends_with(value.as_str(), "/") {
            let base = drop_trailing_slashes(value.as_str());
            let directory = text::last_component(base).to_owned();
            let mut destination = value.clone();
            destination.append(directory.as_str());
            destination.append(".asm");
            proof {
                let a = value@;
                assert(a.subrange(a.len() - 1, a.len() as int)[0] == a.last());
                assert(a.last() == "/"@[0]);
                assert(destination@ =~= value@ + spec_dir_name(value@) + ".asm"@);
            }
            Ok(Config { source: Source::Directory(value), destination })
        } else {
            proof {
                let a = value@;
                if a.len() >= 1 && a.last() == '/' {
                    assert(a.subrange(a.len() - 1, a.len() as int) =~= "/"@);
                }
            }
            Err("Invalid source")
        }
    }
}

} // verus!
