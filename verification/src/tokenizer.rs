//! The Jack tokenizer: splits source lines into keywords, symbols,
//! identifiers, integer literals and string literals, skipping line
//! and block comments.

use vstd::prelude::*;
use vstd::string::StrSliceExecFns;
use vstd::string::StringExecFns;
use crate::text;

verus! {

broadcast use vstd::string::group_string_axioms;

/// One Jack token.
#[derive(Debug)]
pub enum Token {
    Keyword(String),
    Symbol(char),
    Identifier(String),
    Int(i16),
    String(String),
}

impl DeepView for Token {
    type V = TokenView;

    open spec fn deep_view(&self) -> TokenView {
        self.view()
    }
}

impl Clone for Token {
    fn clone(&self) -> (r: Token)
        ensures
            r == *self,
    {
        match self {
            Token::Keyword(s) => Token::Keyword(s.clone()),
            Token::Symbol(c) => Token::Symbol(*c),
            Token::Identifier(s) => Token::Identifier(s.clone()),
            Token::Int(v) => Token::Int(*v),
            Token::String(s) => Token::String(s.clone()),
        }
    }
}

/// The mathematical shape of a token: its text as a character
/// sequence.
pub enum TokenView {
    Keyword(Seq<char>),
    Symbol(char),
    Identifier(Seq<char>),
    Int(i16),
    String(Seq<char>),
}

impl View for Token {
    type V = TokenView;

    open spec fn view(&self) -> TokenView {
        match self {
            Token::Keyword(s) => TokenView::Keyword(s@),
            Token::Symbol(c) => TokenView::Symbol(*c),
            Token::Identifier(s) => TokenView::Identifier(s@),
            Token::Int(v) => TokenView::Int(*v),
            Token::String(s) => TokenView::String(s@),
        }
    }
}

/// Whether `w` is one of the 21 reserved words.
pub open spec fn spec_is_keyword(w: Seq<char>) -> bool {
    ||| w == "class"@ ||| w == "method"@ ||| w == "function"@ ||| w == "constructor"@
    ||| w == "int"@ ||| w == "boolean"@ ||| w == "char"@ ||| w == "void"@ ||| w == "var"@
    ||| w == "static"@ ||| w == "field"@ ||| w == "let"@ ||| w == "do"@ ||| w == "if"@
    ||| w == "else"@ ||| w == "return"@ ||| w == "true"@ ||| w == "false"@ ||| w == "null"@
    ||| w == "this"@ ||| w == "while"@
}

/// Whether `w` is a reserved word.
pub fn is_keyword(w: &str) -> (r: bool)
    ensures
        r == spec_is_keyword(w@),
{
    text::str_eq(w, "class") || text::str_eq(w, "method") || text::str_eq(w, "function")
        || text::str_eq(w, "constructor") || text::str_eq(w, "int") || text::str_eq(w, "boolean")
        || text::str_eq(w, "char") || text::str_eq(w, "void") || text::str_eq(w, "var")
        || text::str_eq(w, "static") || text::str_eq(w, "field") || text::str_eq(w, "let")
        || text::str_eq(w, "do") || text::str_eq(w, "if") || text::str_eq(w, "else")
        || text::str_eq(w, "return") || text::str_eq(w, "true") || text::str_eq(w, "false")
        || text::str_eq(w, "null") || text::str_eq(w, "this") || text::str_eq(w, "while")
}

/// Whether `c` is one of the 19 symbol characters.
pub open spec fn spec_is_symbol_char(c: char) -> bool {
    c == '{' || c == '}' || c == '(' || c == ')' || c == '[' || c == ']' || c == '.' || c == ','
        || c == ';' || c == '+' || c == '-' || c == '*' || c == '/' || c == '&' || c == '|'
        || c == '<' || c == '>' || c == '=' || c == '~'
}

/// Whether `c` is a symbol character.
pub fn is_symbol_char(c: char) -> (r: bool)
    ensures
        r == spec_is_symbol_char(c),
{
    c == '{' || c == '}' || c == '(' || c == ')' || c == '[' || c == ']' || c == '.' || c == ','
        || c == ';' || c == '+' || c == '-' || c == '*' || c == '/' || c == '&' || c == '|'
        || c == '<' || c == '>' || c == '=' || c == '~'
}

/// How a finished word classifies: a keyword, an in-range integer, or
/// an identifier; an all-digit word beyond 15 bits is a lexical error
/// and classifies as nothing.
pub open spec fn spec_classify(w: Seq<char>) -> Option<TokenView> {
    if spec_is_keyword(w) {
        Some(TokenView::Keyword(w))
    } else if w.len() > 0 && text::spec_all_digits(w) {
        if text::spec_digits_value(w) <= 32767 {
            Some(TokenView::Int(text::spec_digits_value(w) as i16))
        } else {
            None
        }
    } else {
        Some(TokenView::Identifier(w))
    }
}

/// Classifies a finished word.
pub fn classify(w: &str) -> (r: Option<Token>)
    requires
        w@.len() > 0,
    ensures
        match r {
            Some(t) => spec_classify(w@) == Some(t@),
            None => spec_classify(w@) is None,
        },
{
    if is_keyword(w) {
        return Some(Token::Keyword(w.to_owned()));
    }
    let len = w.unicode_len();
    let mut i: usize = 0;
    let mut all_digits = true;
    while i < len
        invariant
            0 <= i <= len,
            len == w@.len(),
            all_digits == text::spec_all_digits(w@.subrange(0, i as int)),
        decreases len - i,
    {
        let c = w.get_char(i);
        proof {
            assert(w@.subrange(0, i + 1).drop_last() =~= w@.subrange(0, i as int));
        }
        if c < '0' || c > '9' {
            all_digits = false;
            proof {
                assert(!text::is_digit(w@.subrange(0, i + 1)[i as int]));
            }
        }
        i = i + 1;
    }
    proof {
        assert(w@.subrange(0, len as int) =~= w@);
    }
    if all_digits {
        match text::parse_i16(w) {
            Some(v) => {
                proof {
                    assert(text::spec_parse_i16(w@) == Some(v as int));
                    assert(w@[0] != '+' && w@[0] != '-');
                }
                Some(Token::Int(v))
            },
            None => {
                proof {
                    assert(w@[0] != '+' && w@[0] != '-');
                }
                None
            },
        }
    } else {
        Some(Token::Identifier(w.to_owned()))
    }
}

/// Where the scanner stands: between tokens, inside a string literal,
/// or inside a block comment.
pub enum ScanMode {
    Normal,
    InString,
    InComment,
}

/// The tokens of one line, scanned from position `i` with the pending
/// word `cur`. A `//` comment runs to the end of the line; `/*` opens
/// a block comment, anywhere in the line, that `*/` closes, possibly
/// on a later line. The second component says how the line ended:
/// nothing for a lexical error (an unterminated string, or an integer
/// literal beyond 15 bits), else whether a block comment is still
/// open.
pub open spec fn spec_scan(s: Seq<char>, i: int, cur: Seq<char>, mode: ScanMode) -> (Seq<
    TokenView,
>, Option<bool>)
    decreases s.len() - i,
{
    if i < 0 || i >= s.len() {
        match mode {
            ScanMode::InComment => (seq![], Some(true)),
            ScanMode::InString => (seq![], None),
            ScanMode::Normal => {
                if cur.len() == 0 {
                    (seq![], Some(false))
                } else {
                    match spec_classify(cur) {
                        Some(t) => (seq![t], Some(false)),
                        None => (seq![], None),
                    }
                }
            },
        }
    } else {
        let c = s[i];
        match mode {
            ScanMode::InComment => {
                if c == '*' && i + 1 < s.len() && s[i + 1] == '/' {
                    spec_scan(s, i + 2, cur, ScanMode::Normal)
                } else {
                    spec_scan(s, i + 1, cur, ScanMode::InComment)
                }
            },
            ScanMode::InString => {
                if c == '"' {
                    let rest = spec_scan(s, i + 1, Seq::empty(), ScanMode::Normal);
                    (seq![TokenView::String(cur)] + rest.0, rest.1)
                } else {
                    spec_scan(s, i + 1, cur.push(c), ScanMode::InString)
                }
            },
            ScanMode::Normal => {
                if c == '/' && i + 1 < s.len() && s[i + 1] == '/' {
                    if cur.len() == 0 {
                        (seq![], Some(false))
                    } else {
                        match spec_classify(cur) {
                            Some(t) => (seq![t], Some(false)),
                            None => (seq![], None),
                        }
                    }
                } else if c == '/' && i + 1 < s.len() && s[i + 1] == '*' {
                    if cur.len() == 0 {
                        spec_scan(s, i + 2, cur, ScanMode::InComment)
                    } else {
                        match spec_classify(cur) {
                            Some(t) => {
                                let rest = spec_scan(s, i + 2, Seq::empty(), ScanMode::InComment);
                                (seq![t] + rest.0, rest.1)
                            },
                            None => (seq![], None),
                        }
                    }
                } else if text::is_space(c) {
                    if cur.len() == 0 {
                        spec_scan(s, i + 1, cur, ScanMode::Normal)
                    } else {
                        match spec_classify(cur) {
                            Some(t) => {
                                let rest = spec_scan(s, i + 1, Seq::empty(), ScanMode::Normal);
                                (seq![t] + rest.0, rest.1)
                            },
                            None => (seq![], None),
                        }
                    }
                } else if c == '"' {
                    if cur.len() == 0 {
                        spec_scan(s, i + 1, cur, ScanMode::InString)
                    } else {
                        match spec_classify(cur) {
                            Some(t) => {
                                let rest = spec_scan(s, i + 1, Seq::empty(), ScanMode::InString);
                                (seq![t] + rest.0, rest.1)
                            },
                            None => (seq![], None),
                        }
                    }
                } else if spec_is_symbol_char(c) {
                    if cur.len() == 0 {
                        let rest = spec_scan(s, i + 1, cur, ScanMode::Normal);
                        (seq![TokenView::Symbol(c)] + rest.0, rest.1)
                    } else {
                        match spec_classify(cur) {
                            Some(t) => {
                                let rest = spec_scan(s, i + 1, Seq::empty(), ScanMode::Normal);
                                (seq![t, TokenView::Symbol(c)] + rest.0, rest.1)
                            },
                            None => (seq![], None),
                        }
                    }
                } else {
                    spec_scan(s, i + 1, cur.push(c), ScanMode::Normal)
                }
            },
        }
    }
}

/// The tokens of one line scanned from its start, outside any string
/// or comment.
pub open spec fn spec_line_tokens(s: Seq<char>) -> (Seq<TokenView>, Option<bool>) {
    spec_scan(s, 0, Seq::empty(), ScanMode::Normal)
}

/// Scans one line into tokens, starting inside a block comment when
/// `in_comment` holds; gives how the line ended, as `spec_scan` does.
pub fn tokenize_line(s: &str, in_comment: bool) -> (r: (Vec<Token>, Option<bool>))
    ensures
        ({
            let scanned = spec_scan(s@, 0, Seq::empty(), if in_comment {
                ScanMode::InComment
            } else {
                ScanMode::Normal
            });
            r.0.deep_view() == scanned.0 && r.1 == scanned.1
        }),
{
    let ghost m0: ScanMode = if in_comment { ScanMode::InComment } else { ScanMode::Normal };
    let len = s.unicode_len();
    let mut out: Vec<Token> = Vec::new();
    let mut cur = String::new();
    let mut comment = in_comment;
    let mut in_str = false;
    let mut i: usize = 0;
    while i < len
        invariant
            0 <= i <= len,
            len == s@.len(),
            m0 == (if in_comment { ScanMode::InComment } else { ScanMode::Normal }),
            !(comment && in_str),
            spec_scan(s@, 0, Seq::empty(), m0) == ({
                let mode: ScanMode = if comment {
                    ScanMode::InComment
                } else if in_str {
                    ScanMode::InString
                } else {
                    ScanMode::Normal
                };
                let rest = spec_scan(s@, i as int, cur@, mode);
                (out.deep_view() + rest.0, rest.1)
            }),
        decreases len - i,
    {
        let c = s.get_char(i);
        let ghost old_out = out.deep_view();
        let ghost old_cur = cur@;
        if comment {
            if c == '*' && i + 1 < len && s.get_char(i + 1) == '/' {
                comment = false;
                i = i + 2;
            } else {
                i = i + 1;
            }
        } else if in_str {
            if c == '"' {
                out.push(Token::String(cur));
                cur = String::new();
                in_str = false;
                proof {
                    lemma_push_one(old_out, out.deep_view(), TokenView::String(old_cur));
                }
                i = i + 1;
            } else {
                cur.push(c);
                i = i + 1;
            }
        } else {
            let slash_slash = c == '/' && i + 1 < len && s.get_char(i + 1) == '/';
            let slash_star = c == '/' && i + 1 < len && s.get_char(i + 1) == '*';
            if slash_slash {
                if cur.unicode_len() == 0 {
                    proof {
                        assert(out.deep_view() + Seq::<TokenView>::empty() =~= out.deep_view());
                    }
                    return (out, Some(false));
                }
                match classify(cur.as_str()) {
                    Some(t) => {
                        let ghost tv = t@;
                        out.push(t);
                        proof {
                            assert(out.deep_view() =~= old_out.push(tv));
                            assert(old_out.push(tv) =~= old_out + seq![tv]);
                        }
                        return (out, Some(false));
                    },
                    None => {
                        return (out, None);
                    },
                }
            } else if slash_star {
                if cur.unicode_len() == 0 {
                    comment = true;
                    i = i + 2;
                } else {
                    match classify(cur.as_str()) {
                        Some(t) => {
                            let ghost tv = t@;
                            out.push(t);
                            cur = String::new();
                            comment = true;
                            proof {
                                lemma_push_one(old_out, out.deep_view(), tv);
                            }
                            i = i + 2;
                        },
                        None => {
                            return (out, None);
                        },
                    }
                }
            } else if text::is_space_char(c) {
                if cur.unicode_len() == 0 {
                    i = i + 1;
                } else {
                    match classify(cur.as_str()) {
                        Some(t) => {
                            let ghost tv = t@;
                            out.push(t);
                            cur = String::new();
                            proof {
                                lemma_push_one(old_out, out.deep_view(), tv);
                            }
                            i = i + 1;
                        },
                        None => {
                            return (out, None);
                        },
                    }
                }
            } else if c == '"' {
                if cur.unicode_len() == 0 {
                    in_str = true;
                    i = i + 1;
                } else {
                    match classify(cur.as_str()) {
                        Some(t) => {
                            let ghost tv = t@;
                            out.push(t);
                            cur = String::new();
                            in_str = true;
                            proof {
                                lemma_push_one(old_out, out.deep_view(), tv);
                            }
                            i = i + 1;
                        },
                        None => {
                            return (out, None);
                        },
                    }
                }
            } else if is_symbol_char(c) {
                if cur.unicode_len() == 0 {
                    out.push(Token::Symbol(c));
                    proof {
                        lemma_push_one(old_out, out.deep_view(), TokenView::Symbol(c));
                    }
                    i = i + 1;
                } else {
                    match classify(cur.as_str()) {
                        Some(t) => {
                            let ghost tv = t@;
                            out.push(t);
                            out.push(Token::Symbol(c));
                            cur = String::new();
                            proof {
                                assert(out.deep_view() =~= old_out + seq![tv, TokenView::Symbol(
                                    c,
                                )]);
                                assert(old_out + seq![tv, TokenView::Symbol(c)] + spec_scan(
                                    s@,
                                    i + 1,
                                    Seq::empty(),
                                    ScanMode::Normal,
                                ).0 =~= old_out + (seq![tv, TokenView::Symbol(c)] + spec_scan(
                                    s@,
                                    i + 1,
                                    Seq::empty(),
                                    ScanMode::Normal,
                                ).0));
                            }
                            i = i + 1;
                        },
                        None => {
                            return (out, None);
                        },
                    }
                }
            } else {
                cur.push(c);
                i = i + 1;
            }
        }
    }
    if comment {
        proof {
            assert(out.deep_view() + Seq::<TokenView>::empty() =~= out.deep_view());
        }
        return (out, Some(true));
    }
    if in_str {
        return (out, None);
    }
    if cur.unicode_len() == 0 {
        proof {
            assert(out.deep_view() + Seq::<TokenView>::empty() =~= out.deep_view());
        }
        (out, Some(false))
    } else {
        match classify(cur.as_str()) {
            Some(t) => {
                let ghost old_out = out.deep_view();
                let ghost tv = t@;
                out.push(t);
                proof {
                    lemma_push_one(old_out, out.deep_view(), tv);
                }
                (out, Some(false))
            },
            None => (out, None),
        }
    }
}

proof fn lemma_push_one(old_out: Seq<TokenView>, new_out: Seq<TokenView>, t: TokenView)
    requires
        new_out =~= old_out.push(t),
    ensures
        forall|rest: Seq<TokenView>| old_out + (seq![t] + rest) =~= #[trigger] (new_out + rest),
{
    assert forall|rest: Seq<TokenView>| old_out + (seq![t] + rest) =~= #[trigger] (new_out
        + rest) by {
        assert(old_out + (seq![t] + rest) =~= old_out.push(t) + rest);
    }
}

/// A pull tokenizer over one line's tokens.
pub struct Line {
    tokens: Vec<Token>,
    index: usize,
    ok: bool,
}

impl Line {
    pub closed spec fn spec_tokens(&self) -> Seq<TokenView> {
        self.tokens.deep_view()
    }

    pub closed spec fn spec_index(&self) -> int {
        self.index as int
    }

    pub closed spec fn spec_ok(&self) -> bool {
        self.ok
    }

    pub open spec fn wf(&self) -> bool {
        0 <= self.spec_index() <= self.spec_tokens().len()
    }

    /// Scans the whole line up front; a lexical error (an unterminated
    /// string, or an integer literal beyond 15 bits) cuts the token
    /// stream short there and clears the flag.
    pub fn new(line: &str) -> (r: Line)
        ensures
            r.wf(),
            r.spec_tokens() == spec_line_tokens(line@).0,
            r.spec_ok() == (spec_line_tokens(line@).1 is Some),
            r.spec_index() == 0,
    {
        let scanned = tokenize_line(line, false);
        Line { tokens: scanned.0, index: 0, ok: scanned.1.is_some() }
    }

    /// Whether the line scanned without a lexical error.
    pub fn is_ok(&self) -> (r: bool)
        ensures
            r == self.spec_ok(),
    {
        self.ok
    }

    /// The next token of the line, if one is left.
    pub fn next(&mut self) -> (r: Option<Token>)
        requires
            old(self).wf(),
        ensures
            final(self).wf(),
            final(self).spec_tokens() == old(self).spec_tokens(),
            final(self).spec_ok() == old(self).spec_ok(),
            match r {
                Some(t) => old(self).spec_index() < old(self).spec_tokens().len()
                    && t@ == old(self).spec_tokens()[old(self).spec_index()]
                    && final(self).spec_index() == old(self).spec_index() + 1,
                None => old(self).spec_index() == old(self).spec_tokens().len()
                    && final(self).spec_index() == old(self).spec_index(),
            },
    {
        if self.index < self.tokens.len() {
            let t = self.tokens[self.index].clone();
            proof {
                assert(self.tokens.deep_view()[self.index as int]
                    == self.tokens@[self.index as int]@);
                lemma_token_clone(self.tokens@[self.index as int], t);
            }
            self.index = self.index + 1;
            Some(t)
        } else {
            None
        }
    }
}

proof fn lemma_token_clone(a: Token, b: Token)
    requires
        a == b || a@ == b@,
    ensures
        a@ == b@,
{
}

/// The tokens of a whole file, walking the lines with the block
/// comment state carried across line ends; the flag is false when a
/// line hit a lexical error (which cuts the stream there) or the file
/// ends inside an unterminated block comment.
pub open spec fn spec_file_tokens(lines: Seq<Seq<char>>, i: int, in_comment: bool) -> (Seq<
    TokenView,
>, bool)
    decreases lines.len() - i,
{
    if i < 0 || i >= lines.len() {
        (seq![], !in_comment)
    } else {
        let scanned = spec_scan(lines[i], 0, Seq::empty(), if in_comment {
            ScanMode::InComment
        } else {
            ScanMode::Normal
        });
        match scanned.1 {
            None => (scanned.0, false),
            Some(c2) => {
                let rest = spec_file_tokens(lines, i + 1, c2);
                (scanned.0 + rest.0, rest.1)
            },
        }
    }
}

/// A pull tokenizer over a whole Jack source file.
pub struct Tokenizer {
    tokens: Vec<Token>,
    index: usize,
    ok: bool,
}

impl Tokenizer {
    pub closed spec fn spec_tokens(&self) -> Seq<TokenView> {
        self.tokens.deep_view()
    }

    pub closed spec fn spec_index(&self) -> int {
        self.index as int
    }

    pub closed spec fn spec_ok(&self) -> bool {
        self.ok
    }

    pub open spec fn wf(&self) -> bool {
        0 <= self.spec_index() <= self.spec_tokens().len()
    }

    /// Tokenizes the whole file up front. `//` comments run to the
    /// end of their line; `/* ... */` comments may start anywhere and
    /// span lines. A lexical error cuts the token stream and clears
    /// the flag, as does a block comment left open at the end.
    pub fn new(lines: &Vec<String>) -> (r: Tokenizer)
        ensures
            r.wf(),
            r.spec_index() == 0,
            r.spec_tokens() == spec_file_tokens(lines.deep_view(), 0, false).0,
            r.spec_ok() == spec_file_tokens(lines.deep_view(), 0, false).1,
    {
        let ghost ls = lines.deep_view();
        let n = lines.len();
        let mut tokens: Vec<Token> = Vec::new();
        let mut in_comment = false;
        let mut i: usize = 0;
        while i < n
            invariant
                0 <= i <= n,
                n == lines.len(),
                ls == lines.deep_view(),
                spec_file_tokens(ls, 0, false) == ({
                    let rest = spec_file_tokens(ls, i as int, in_comment);
                    (tokens.deep_view() + rest.0, rest.1)
                }),
            decreases n - i,
        {
            proof {
                assert(ls[i as int] == lines@[i as int]@);
            }
            let scanned = tokenize_line(lines[i].as_str(), in_comment);
            let ghost old_tokens = tokens.deep_view();
            let mut new_tokens = scanned.0;
            let ghost line_toks = new_tokens.deep_view();
            tokens.append(&mut new_tokens);
            proof {
                assert(tokens.deep_view() =~= old_tokens + line_toks);
            }
            match scanned.1 {
                None => {
                    proof {
                        assert(tokens.deep_view() + Seq::<TokenView>::empty()
                            =~= tokens.deep_view());
                    }
                    return Tokenizer { tokens, index: 0, ok: false };
                },
                Some(c2) => {
                    in_comment = c2;
                    proof {
                        assert(old_tokens + (line_toks + spec_file_tokens(ls, i + 1, c2).0)
                            =~= (old_tokens + line_toks) + spec_file_tokens(ls, i + 1, c2).0);
                    }
                },
            }
            i = i + 1;
        }
        proof {
            assert(tokens.deep_view() + Seq::<TokenView>::empty() =~= tokens.deep_view());
        }
        Tokenizer { tokens, index: 0, ok: !in_comment }
    }

    /// Whether the whole file scanned without a lexical error.
    pub fn is_ok(&self) -> (r: bool)
        ensures
            r == self.spec_ok(),
    {
        self.ok
    }

    /// The next token of the file, if any.
    pub fn next(&mut self) -> (r: Option<Token>)
        requires
            old(self).wf(),
        ensures
            final(self).wf(),
            final(self).spec_tokens() == old(self).spec_tokens(),
            final(self).spec_ok() == old(self).spec_ok(),
            match r {
                Some(t) => old(self).spec_index() < old(self).spec_tokens().len()
                    && t@ == old(self).spec_tokens()[old(self).spec_index()]
                    && final(self).spec_index() == old(self).spec_index() + 1,
                None => old(self).spec_index() == old(self).spec_tokens().len()
                    && final(self).spec_index() == old(self).spec_index(),
            },
    {
        if self.index < self.tokens.len() {
            let t = self.tokens[self.index].clone();
            proof {
                assert(self.tokens.deep_view()[self.index as int]
                    == self.tokens@[self.index as int]@);
                lemma_token_clone(self.tokens@[self.index as int], t);
            }
            self.index = self.index + 1;
            Some(t)
        } else {
            None
        }
    }

    /// All tokens of the file, for the parser to walk.
    pub fn into_tokens(self) -> (r: Vec<Token>)
        requires
            self.wf(),
        ensures
            r.deep_view() == self.spec_tokens().skip(self.spec_index()),
    {
        let mut v = self.tokens;
        let ghost full = v.deep_view();
        let ghost start = self.index as int;
        let mut out: Vec<Token> = Vec::new();
        let mut i: usize = self.index;
        proof {
            assert(out.deep_view() =~= full.subrange(start, start));
        }
        while i < v.len()
            invariant
                0 <= start <= i <= v.len(),
                full == v.deep_view(),
                out.deep_view() == full.subrange(start, i as int),
            decreases v.len() - i,
        {
            let t = v[i].clone();
            proof {
                assert(full.len() == v@.len());
                assert(v.deep_view()[i as int] == v@[i as int]@);
                lemma_token_clone(v@[i as int], t);
            }
            let ghost old_out = out.deep_view();
            out.push(t);
            proof {
                assert(t@ == full[i as int]);
                assert(full.subrange(start, i as int).len() == i - start);
                assert(old_out.len() == i - start);
                assert(out.deep_view() =~= old_out.push(t@));
                assert(out.deep_view() =~= full.subrange(start, i + 1));
            }
            i = i + 1;
        }
        proof {
            assert(full.subrange(start, full.len() as int) =~= full.skip(start));
        }
        out
    }
}

} // verus!
