//! The Jack abstract syntax tree and its recursive-descent parser.
//!
//! Every parse function is proved sound: when it yields a node, the
//! tokens it consumed are exactly the tokens that node renders back
//! to, so the tree is a faithful reading of the source.

use vstd::prelude::*;
use vstd::string::StrSliceExecFns;
use vstd::string::StringExecFns;
use crate::text;
use crate::tokenizer::{Token, TokenView};

verus! {

broadcast use vstd::string::group_string_axioms;

pub struct ClassName(pub String);

pub struct SubroutineName(pub String);

pub struct VarName(pub String);

/// A Jack type: one of the three primitives or a class reference.
pub enum Type {
    Int,
    Char,
    Boolean,
    ClassName(String),
}

pub enum ClassVarDecType {
    Static,
    Field,
}

pub struct ClassVarDec {
    pub dec_type: ClassVarDecType,
    pub var_type: Type,
    pub var_name: VarName,
    pub extra_var_names: Vec<VarName>,
}

pub enum SubroutineType {
    Constructor,
    Function,
    Method,
}

pub enum SubroutineReturnType {
    Void,
    General(Type),
}

pub struct Parameter(pub Type, pub VarName);

pub struct SubroutineDec {
    pub subroutine_type: SubroutineType,
    pub return_type: SubroutineReturnType,
    pub name: SubroutineName,
    pub parameters: Vec<Parameter>,
    pub body: SubroutineBody,
}

pub struct SubroutineBody {
    pub var_decs: Vec<VarDec>,
    pub statements: Statements,
}

pub struct VarDec {
    pub var_type: Type,
    pub var_name: VarName,
    pub extra_var_names: Vec<VarName>,
}

pub struct Class {
    pub name: ClassName,
    pub class_var_decs: Vec<ClassVarDec>,
    pub subroutine_decs: Vec<SubroutineDec>,
}

pub struct Statements(pub Vec<Statement>);

pub enum Statement {
    Let(LetStatement),
    If(Box<IfStatement>),
    While(Box<WhileStatement>),
    Do(SubroutineCall),
    Return(Option<Expression>),
}

pub struct LetStatement {
    pub var_name: VarName,
    pub index_expression: Option<Expression>,
    pub expression: Expression,
}

pub struct IfStatement {
    pub expression: Expression,
    pub if_statements: Statements,
    pub else_statements: Option<Statements>,
}

pub struct WhileStatement {
    pub expression: Expression,
    pub statements: Statements,
}

pub struct OpTerm(pub Op, pub Term);

/// A term and its trailing (op, term) pairs, applied left to right
/// with no precedence.
pub struct Expression {
    pub term: Term,
    pub extra_op_terms: Vec<OpTerm>,
}

pub enum Term {
    IntegerConstant(i16),
    StringConstant(String),
    KeywordConstant(KeywordConstant),
    VarName(String),
    IndexVar(String, Box<Expression>),
    Call(SubroutineCall),
    Expression(Box<Expression>),
    WithUnary(UnaryOp, Box<Term>),
}

pub struct SubroutineCall {
    pub caller: Option<String>,
    pub subroutine_name: SubroutineName,
    pub expression_list: Vec<Expression>,
}

pub enum KeywordConstant {
    True,
    False,
    Null,
    This,
}

pub enum UnaryOp {
    Negative,
    Not,
}

pub enum Op {
    Plus,
    Minus,
    Multiply,
    Divide,
    And,
    Or,
    Lt,
    Gt,
    Eq,
}

// ----- what each node renders back to, as tokens -----

pub open spec fn kw(s: Seq<char>) -> TokenView {
    TokenView::Keyword(s)
}

pub open spec fn sym(c: char) -> TokenView {
    TokenView::Symbol(c)
}

pub open spec fn idt(s: Seq<char>) -> TokenView {
    TokenView::Identifier(s)
}

/// The one token a type is written as.
pub open spec fn spec_type_token(t: Type) -> TokenView {
    match t {
        Type::Int => kw("int"@),
        Type::Char => kw("char"@),
        Type::Boolean => kw("boolean"@),
        Type::ClassName(n) => idt(n@),
    }
}

pub open spec fn spec_class_var_dec_type_token(d: ClassVarDecType) -> TokenView {
    match d {
        ClassVarDecType::Static => kw("static"@),
        ClassVarDecType::Field => kw("field"@),
    }
}

pub open spec fn spec_subroutine_type_token(s: SubroutineType) -> TokenView {
    match s {
        SubroutineType::Constructor => kw("constructor"@),
        SubroutineType::Function => kw("function"@),
        SubroutineType::Method => kw("method"@),
    }
}

pub open spec fn spec_return_type_token(r: SubroutineReturnType) -> TokenView {
    match r {
        SubroutineReturnType::Void => kw("void"@),
        SubroutineReturnType::General(t) => spec_type_token(t),
    }
}

pub open spec fn spec_op_char(op: Op) -> char {
    match op {
        Op::Plus => '+',
        Op::Minus => '-',
        Op::Multiply => '*',
        Op::Divide => '/',
        Op::And => '&',
        Op::Or => '|',
        Op::Lt => '<',
        Op::Gt => '>',
        Op::Eq => '=',
    }
}

pub open spec fn spec_unary_op_char(op: UnaryOp) -> char {
    match op {
        UnaryOp::Negative => '-',
        UnaryOp::Not => '~',
    }
}

pub open spec fn spec_keyword_constant_token(k: KeywordConstant) -> TokenView {
    match k {
        KeywordConstant::True => kw("true"@),
        KeywordConstant::False => kw("false"@),
        KeywordConstant::Null => kw("null"@),
        KeywordConstant::This => kw("this"@),
    }
}

/// `, name` pairs after the first declared name.
pub open spec fn spec_extra_var_names_tokens(s: Seq<VarName>) -> Seq<TokenView>
    decreases s,
{
    if s.len() == 0 {
        seq![]
    } else {
        spec_extra_var_names_tokens(s.drop_last()) + seq![sym(','), idt(s.last().0@)]
    }
}

/// `type name` pairs separated by commas.
pub open spec fn spec_parameters_tokens(s: Seq<Parameter>) -> Seq<TokenView>
    decreases s,
{
    if s.len() == 0 {
        seq![]
    } else if s.len() == 1 {
        seq![spec_type_token(s.last().0), idt(s.last().1.0@)]
    } else {
        spec_parameters_tokens(s.drop_last()) + seq![
            sym(','),
            spec_type_token(s.last().0),
            idt(s.last().1.0@),
        ]
    }
}

pub open spec fn spec_class_var_dec_tokens(d: ClassVarDec) -> Seq<TokenView> {
    seq![
        spec_class_var_dec_type_token(d.dec_type),
        spec_type_token(d.var_type),
        idt(d.var_name.0@),
    ] + spec_extra_var_names_tokens(d.extra_var_names@) + seq![sym(';')]
}

pub open spec fn spec_class_var_decs_tokens(s: Seq<ClassVarDec>) -> Seq<TokenView>
    decreases s,
{
    if s.len() == 0 {
        seq![]
    } else {
        spec_class_var_decs_tokens(s.drop_last()) + spec_class_var_dec_tokens(s.last())
    }
}

pub open spec fn spec_var_dec_tokens(d: VarDec) -> Seq<TokenView> {
    seq![kw("var"@), spec_type_token(d.var_type), idt(d.var_name.0@)]
        + spec_extra_var_names_tokens(d.extra_var_names@) + seq![sym(';')]
}

pub open spec fn spec_var_decs_tokens(s: Seq<VarDec>) -> Seq<TokenView>
    decreases s,
{
    if s.len() == 0 {
        seq![]
    } else {
        spec_var_decs_tokens(s.drop_last()) + spec_var_dec_tokens(s.last())
    }
}

pub open spec fn spec_expression_tokens(e: Expression) -> Seq<TokenView>
    decreases e,
{
    spec_term_tokens(e.term) + spec_op_terms_tokens(e.extra_op_terms@)
}

pub open spec fn spec_op_terms_tokens(s: Seq<OpTerm>) -> Seq<TokenView>
    decreases s,
{
    if s.len() == 0 {
        seq![]
    } else {
        spec_op_terms_tokens(s.drop_last()) + seq![sym(spec_op_char(s.last().0))]
            + spec_term_tokens(s.last().1)
    }
}

pub open spec fn spec_term_tokens(t: Term) -> Seq<TokenView>
    decreases t,
{
    match t {
        Term::IntegerConstant(v) => seq![TokenView::Int(v)],
        Term::StringConstant(s) => seq![TokenView::String(s@)],
        Term::KeywordConstant(k) => seq![spec_keyword_constant_token(k)],
        Term::VarName(v) => seq![idt(v@)],
        Term::IndexVar(v, e) => seq![idt(v@), sym('[')] + spec_expression_tokens(*e)
            + seq![sym(']')],
        Term::Call(sc) => spec_call_tokens(sc),
        Term::Expression(e) => seq![sym('(')] + spec_expression_tokens(*e) + seq![sym(')')],
        Term::WithUnary(op, inner) => seq![sym(spec_unary_op_char(op))] + spec_term_tokens(
            *inner,
        ),
    }
}

pub open spec fn spec_expression_list_tokens(s: Seq<Expression>) -> Seq<TokenView>
    decreases s,
{
    if s.len() == 0 {
        seq![]
    } else if s.len() == 1 {
        spec_expression_tokens(s.last())
    } else {
        spec_expression_list_tokens(s.drop_last()) + seq![sym(',')] + spec_expression_tokens(
            s.last(),
        )
    }
}

pub open spec fn spec_call_tokens(sc: SubroutineCall) -> Seq<TokenView>
    decreases sc,
{
    (match sc.caller {
        Some(c) => seq![idt(c@), sym('.')],
        None => seq![],
    }) + seq![idt(sc.subroutine_name.0@), sym('(')] + spec_expression_list_tokens(
        sc.expression_list@,
    ) + seq![sym(')')]
}

pub open spec fn spec_statement_tokens(st: Statement) -> Seq<TokenView>
    decreases st,
{
    match st {
        Statement::Let(l) => seq![kw("let"@), idt(l.var_name.0@)] + (match l.index_expression {
            Some(e) => seq![sym('[')] + spec_expression_tokens(e) + seq![sym(']')],
            None => seq![],
        }) + seq![sym('=')] + spec_expression_tokens(l.expression) + seq![sym(';')],
        Statement::If(f) => seq![kw("if"@), sym('(')] + spec_expression_tokens((*f).expression)
            + seq![sym(')'), sym('{')] + spec_statements_tokens((*f).if_statements.0@)
            + seq![sym('}')] + (match (*f).else_statements {
            Some(ss) => seq![kw("else"@), sym('{')] + spec_statements_tokens(ss.0@)
                + seq![sym('}')],
            None => seq![],
        }),
        Statement::While(w) => seq![kw("while"@), sym('(')] + spec_expression_tokens(
            (*w).expression,
        ) + seq![sym(')'), sym('{')] + spec_statements_tokens((*w).statements.0@)
            + seq![sym('}')],
        Statement::Do(sc) => seq![kw("do"@)] + spec_call_tokens(sc) + seq![sym(';')],
        Statement::Return(e) => seq![kw("return"@)] + (match e {
            Some(e) => spec_expression_tokens(e),
            None => seq![],
        }) + seq![sym(';')],
    }
}

pub open spec fn spec_statements_tokens(s: Seq<Statement>) -> Seq<TokenView>
    decreases s,
{
    if s.len() == 0 {
        seq![]
    } else {
        spec_statements_tokens(s.drop_last()) + spec_statement_tokens(s.last())
    }
}

pub open spec fn spec_subroutine_dec_tokens(d: SubroutineDec) -> Seq<TokenView> {
    seq![
        spec_subroutine_type_token(d.subroutine_type),
        spec_return_type_token(d.return_type),
        idt(d.name.0@),
        sym('('),
    ] + spec_parameters_tokens(d.parameters@) + seq![sym(')'), sym('{')] + spec_var_decs_tokens(
        d.body.var_decs@,
    ) + spec_statements_tokens(d.body.statements.0@) + seq![sym('}')]
}

pub open spec fn spec_subroutine_decs_tokens(s: Seq<SubroutineDec>) -> Seq<TokenView>
    decreases s,
{
    if s.len() == 0 {
        seq![]
    } else {
        spec_subroutine_decs_tokens(s.drop_last()) + spec_subroutine_dec_tokens(s.last())
    }
}

/// The whole class: `class Name { classVarDec* subroutineDec* }`.
pub open spec fn spec_class_tokens(c: Class) -> Seq<TokenView> {
    seq![kw("class"@), idt(c.name.0@), sym('{')] + spec_class_var_decs_tokens(c.class_var_decs@)
        + spec_subroutine_decs_tokens(c.subroutine_decs@) + seq![sym('}')]
}

// ----- when parsing succeeds: the grammar as recognizers -----

/// How one attempt at a grammar production ends: with the position
/// just past what it covers, with nothing of that production at the
/// position (and no token taken), or with a malformed construct.
pub enum ParseStep {
    Parsed(int),
    NotHere,
    Malformed,
}

pub open spec fn spec_is_op_char(c: char) -> bool {
    c == '+' || c == '-' || c == '*' || c == '/' || c == '&' || c == '|' || c == '<' || c == '>'
        || c == '='
}

/// `(',' varName)*`.
pub open spec fn spec_rec_extra_var_names(tv: Seq<TokenView>, pos: int) -> ParseStep
    decreases tv.len() - pos,
{
    if pos < 0 || pos >= tv.len() || tv[pos] != sym(',') {
        ParseStep::Parsed(pos)
    } else if pos + 1 < tv.len() && tv[pos + 1] is Identifier {
        spec_rec_extra_var_names(tv, pos + 2)
    } else {
        ParseStep::Malformed
    }
}

/// `('static'|'field') type varName (',' varName)* ';'`.
pub open spec fn spec_rec_class_var_dec(tv: Seq<TokenView>, pos: int) -> ParseStep {
    if !(0 <= pos < tv.len() && (tv[pos] == kw("static"@) || tv[pos] == kw("field"@))) {
        ParseStep::NotHere
    } else if !(pos + 1 < tv.len()) {
        ParseStep::Malformed
    } else if !spec_token_is_type(tv[pos + 1]) {
        ParseStep::Malformed
    } else if !(pos + 2 < tv.len() && tv[pos + 2] is Identifier) {
        ParseStep::Malformed
    } else {
        match spec_rec_extra_var_names(tv, pos + 3) {
            ParseStep::Parsed(p) => {
                if 0 <= p < tv.len() && tv[p] == sym(';') {
                    ParseStep::Parsed(p + 1)
                } else {
                    ParseStep::Malformed
                }
            },
            _ => ParseStep::Malformed,
        }
    }
}

/// `classVarDec*`.
pub open spec fn spec_rec_class_var_decs(tv: Seq<TokenView>, pos: int) -> ParseStep
    decreases tv.len() - pos,
{
    match spec_rec_class_var_dec(tv, pos) {
        ParseStep::NotHere => ParseStep::Parsed(pos),
        ParseStep::Parsed(p) => {
            // a declaration always covers at least one token; the
            // guard keeps the recursion well founded
            if pos < p <= tv.len() {
                spec_rec_class_var_decs(tv, p)
            } else {
                ParseStep::Malformed
            }
        },
        ParseStep::Malformed => ParseStep::Malformed,
    }
}

/// `'var' type varName (',' varName)* ';'`.
pub open spec fn spec_rec_var_dec(tv: Seq<TokenView>, pos: int) -> ParseStep {
    if !(0 <= pos < tv.len() && tv[pos] == kw("var"@)) {
        ParseStep::NotHere
    } else if !(pos + 1 < tv.len()) {
        ParseStep::Malformed
    } else if !spec_token_is_type(tv[pos + 1]) {
        ParseStep::Malformed
    } else if !(pos + 2 < tv.len() && tv[pos + 2] is Identifier) {
        ParseStep::Malformed
    } else {
        match spec_rec_extra_var_names(tv, pos + 3) {
            ParseStep::Parsed(p) => {
                if 0 <= p < tv.len() && tv[p] == sym(';') {
                    ParseStep::Parsed(p + 1)
                } else {
                    ParseStep::Malformed
                }
            },
            _ => ParseStep::Malformed,
        }
    }
}

/// `varDec*`.
pub open spec fn spec_rec_var_decs(tv: Seq<TokenView>, pos: int) -> ParseStep
    decreases tv.len() - pos,
{
    match spec_rec_var_dec(tv, pos) {
        ParseStep::NotHere => ParseStep::Parsed(pos),
        ParseStep::Parsed(p) => {
            if pos < p <= tv.len() {
                spec_rec_var_decs(tv, p)
            } else {
                ParseStep::Malformed
            }
        },
        ParseStep::Malformed => ParseStep::Malformed,
    }
}

/// `(',' type varName)*`.
pub open spec fn spec_rec_extra_parameters(tv: Seq<TokenView>, pos: int) -> ParseStep
    decreases tv.len() - pos,
{
    if pos < 0 || pos >= tv.len() || tv[pos] != sym(',') {
        ParseStep::Parsed(pos)
    } else if !(pos + 1 < tv.len()) {
        ParseStep::Malformed
    } else if !spec_token_is_type(tv[pos + 1]) {
        ParseStep::Malformed
    } else if !(pos + 2 < tv.len() && tv[pos + 2] is Identifier) {
        ParseStep::Malformed
    } else {
        spec_rec_extra_parameters(tv, pos + 3)
    }
}

/// `(type varName (',' type varName)*)?`, stopping before a ')'.
pub open spec fn spec_rec_parameters(tv: Seq<TokenView>, pos: int) -> ParseStep {
    if 0 <= pos < tv.len() && tv[pos] == sym(')') {
        ParseStep::Parsed(pos)
    } else if !(0 <= pos < tv.len()) {
        ParseStep::NotHere
    } else if !spec_token_is_type(tv[pos]) {
        ParseStep::Malformed
    } else if !(pos + 1 < tv.len() && tv[pos + 1] is Identifier) {
        ParseStep::Malformed
    } else {
        spec_rec_extra_parameters(tv, pos + 2)
    }
}

/// One term, with the one-token lookahead after an identifier picking
/// among an indexed variable, the two call forms, and a plain
/// variable.
pub open spec fn spec_rec_term(tv: Seq<TokenView>, pos: int) -> ParseStep
    decreases tv.len() - pos, 1int,
{
    if !(0 <= pos < tv.len()) {
        ParseStep::NotHere
    } else {
        match tv[pos] {
            TokenView::Int(_) => ParseStep::Parsed(pos + 1),
            TokenView::String(_) => ParseStep::Parsed(pos + 1),
            TokenView::Keyword(s) => {
                if s == "true"@ || s == "false"@ || s == "null"@ || s == "this"@ {
                    ParseStep::Parsed(pos + 1)
                } else {
                    ParseStep::NotHere
                }
            },
            TokenView::Identifier(_) => {
                if pos + 1 < tv.len() && tv[pos + 1] == sym('[') {
                    match spec_rec_expression(tv, pos + 2) {
                        ParseStep::Parsed(p) => {
                            if 0 <= p < tv.len() && tv[p] == sym(']') {
                                ParseStep::Parsed(p + 1)
                            } else {
                                ParseStep::Malformed
                            }
                        },
                        _ => ParseStep::Malformed,
                    }
                } else if pos + 1 < tv.len() && tv[pos + 1] == sym('(') {
                    match spec_rec_expression_list(tv, pos + 2) {
                        ParseStep::Parsed(p) => {
                            if 0 <= p < tv.len() && tv[p] == sym(')') {
                                ParseStep::Parsed(p + 1)
                            } else {
                                ParseStep::Malformed
                            }
                        },
                        _ => ParseStep::Malformed,
                    }
                } else if pos + 1 < tv.len() && tv[pos + 1] == sym('.') {
                    if !(pos + 2 < tv.len() && tv[pos + 2] is Identifier) {
                        ParseStep::Malformed
                    } else if !(pos + 3 < tv.len() && tv[pos + 3] == sym('(')) {
                        ParseStep::Malformed
                    } else {
                        match spec_rec_expression_list(tv, pos + 4) {
                            ParseStep::Parsed(p) => {
                                if 0 <= p < tv.len() && tv[p] == sym(')') {
                                    ParseStep::Parsed(p + 1)
                                } else {
                                    ParseStep::Malformed
                                }
                            },
                            _ => ParseStep::Malformed,
                        }
                    }
                } else {
                    ParseStep::Parsed(pos + 1)
                }
            },
            TokenView::Symbol(c) => {
                if c == '(' {
                    match spec_rec_expression(tv, pos + 1) {
                        ParseStep::Parsed(p) => {
                            if 0 <= p < tv.len() && tv[p] == sym(')') {
                                ParseStep::Parsed(p + 1)
                            } else {
                                ParseStep::Malformed
                            }
                        },
                        _ => ParseStep::Malformed,
                    }
                } else if c == '-' || c == '~' {
                    match spec_rec_term(tv, pos + 1) {
                        ParseStep::Parsed(p) => ParseStep::Parsed(p),
                        _ => ParseStep::Malformed,
                    }
                } else {
                    ParseStep::NotHere
                }
            },
        }
    }
}

/// `(op term)*`.
pub open spec fn spec_rec_op_terms(tv: Seq<TokenView>, pos: int) -> ParseStep
    decreases tv.len() - pos, 0int,
{
    if !(0 <= pos < tv.len() && (tv[pos] matches TokenView::Symbol(c) && spec_is_op_char(c))) {
        ParseStep::Parsed(pos)
    } else {
        match spec_rec_term(tv, pos + 1) {
            ParseStep::Parsed(p) => {
                if pos < p <= tv.len() {
                    spec_rec_op_terms(tv, p)
                } else {
                    ParseStep::Malformed
                }
            },
            _ => ParseStep::Malformed,
        }
    }
}

/// `term (op term)*`.
pub open spec fn spec_rec_expression(tv: Seq<TokenView>, pos: int) -> ParseStep
    decreases tv.len() - pos, 2int,
{
    match spec_rec_term(tv, pos) {
        ParseStep::NotHere => ParseStep::NotHere,
        ParseStep::Malformed => ParseStep::Malformed,
        ParseStep::Parsed(p) => {
            if pos < p <= tv.len() {
                spec_rec_op_terms(tv, p)
            } else {
                ParseStep::Malformed
            }
        },
    }
}

/// `(',' expression)*`.
pub open spec fn spec_rec_extra_expressions(tv: Seq<TokenView>, pos: int) -> ParseStep
    decreases tv.len() - pos, 4int,
{
    if !(0 <= pos < tv.len() && tv[pos] == sym(',')) {
        ParseStep::Parsed(pos)
    } else {
        match spec_rec_expression(tv, pos + 1) {
            ParseStep::Parsed(p) => {
                if pos < p <= tv.len() {
                    spec_rec_extra_expressions(tv, p)
                } else {
                    ParseStep::Malformed
                }
            },
            _ => ParseStep::Malformed,
        }
    }
}

/// `(expression (',' expression)*)?`.
pub open spec fn spec_rec_expression_list(tv: Seq<TokenView>, pos: int) -> ParseStep
    decreases tv.len() - pos, 3int,
{
    match spec_rec_expression(tv, pos) {
        ParseStep::NotHere => ParseStep::Parsed(pos),
        ParseStep::Malformed => ParseStep::Malformed,
        ParseStep::Parsed(p) => {
            if pos < p <= tv.len() {
                spec_rec_extra_expressions(tv, p)
            } else {
                ParseStep::Malformed
            }
        },
    }
}

/// `name '(' expressions ')'` or `receiver '.' name '(' expressions ')'`.
pub open spec fn spec_rec_call(tv: Seq<TokenView>, pos: int) -> ParseStep
    decreases tv.len() - pos, 5int,
{
    if !(0 <= pos < tv.len() && tv[pos] is Identifier) {
        ParseStep::NotHere
    } else if pos + 1 < tv.len() && tv[pos + 1] == sym('(') {
        match spec_rec_expression_list(tv, pos + 2) {
            ParseStep::Parsed(p) => {
                if 0 <= p < tv.len() && tv[p] == sym(')') {
                    ParseStep::Parsed(p + 1)
                } else {
                    ParseStep::Malformed
                }
            },
            _ => ParseStep::Malformed,
        }
    } else if pos + 1 < tv.len() && tv[pos + 1] == sym('.') {
        if !(pos + 2 < tv.len() && tv[pos + 2] is Identifier) {
            ParseStep::Malformed
        } else if !(pos + 3 < tv.len() && tv[pos + 3] == sym('(')) {
            ParseStep::Malformed
        } else {
            match spec_rec_expression_list(tv, pos + 4) {
                ParseStep::Parsed(p) => {
                    if 0 <= p < tv.len() && tv[p] == sym(')') {
                        ParseStep::Parsed(p + 1)
                    } else {
                        ParseStep::Malformed
                    }
                },
                _ => ParseStep::Malformed,
            }
        }
    } else {
        ParseStep::Malformed
    }
}

/// One statement, dispatched on the keywords let, if, while, do and
/// return; any other token is no statement and takes nothing.
pub open spec fn spec_rec_statement(tv: Seq<TokenView>, pos: int) -> ParseStep
    decreases tv.len() - pos, 6int,
{
    if !(0 <= pos < tv.len()) {
        ParseStep::NotHere
    } else if tv[pos] == kw("let"@) {
        if !(pos + 1 < tv.len() && tv[pos + 1] is Identifier) {
            ParseStep::Malformed
        } else {
            let after_index: ParseStep = if pos + 2 < tv.len() && tv[pos + 2] == sym('[') {
                match spec_rec_expression(tv, pos + 3) {
                    ParseStep::Parsed(ip) => {
                        if pos + 3 < ip <= tv.len() && ip < tv.len() && tv[ip] == sym(']') {
                            ParseStep::Parsed(ip + 1)
                        } else {
                            ParseStep::Malformed
                        }
                    },
                    _ => ParseStep::Malformed,
                }
            } else {
                ParseStep::Parsed(pos + 2)
            };
            match after_index {
                ParseStep::Parsed(p) => {
                    if !(pos + 1 < p && p < tv.len() && tv[p] == sym('=')) {
                        ParseStep::Malformed
                    } else {
                        match spec_rec_expression(tv, p + 1) {
                            ParseStep::Parsed(rp) => {
                                if 0 <= rp < tv.len() && tv[rp] == sym(';') {
                                    ParseStep::Parsed(rp + 1)
                                } else {
                                    ParseStep::Malformed
                                }
                            },
                            _ => ParseStep::Malformed,
                        }
                    }
                },
                _ => ParseStep::Malformed,
            }
        }
    } else if tv[pos] == kw("if"@) {
        if !(pos + 1 < tv.len() && tv[pos + 1] == sym('(')) {
            ParseStep::Malformed
        } else {
            match spec_rec_expression(tv, pos + 2) {
                ParseStep::Parsed(cp) => {
                    if !(pos + 2 < cp && cp + 1 < tv.len() && tv[cp] == sym(')') && tv[cp + 1]
                        == sym('{')) {
                        ParseStep::Malformed
                    } else {
                        match spec_rec_statements(tv, cp + 2) {
                            ParseStep::Parsed(bp) => {
                                if !(cp + 2 <= bp && bp < tv.len() && tv[bp] == sym('}')) {
                                    ParseStep::Malformed
                                } else if bp + 1 < tv.len() && tv[bp + 1] == kw("else"@) {
                                    if !(bp + 2 < tv.len() && tv[bp + 2] == sym('{')) {
                                        ParseStep::Malformed
                                    } else {
                                        match spec_rec_statements(tv, bp + 3) {
                                            ParseStep::Parsed(ep) => {
                                                if 0 <= ep < tv.len() && tv[ep] == sym('}') {
                                                    ParseStep::Parsed(ep + 1)
                                                } else {
                                                    ParseStep::Malformed
                                                }
                                            },
                                            _ => ParseStep::Malformed,
                                        }
                                    }
                                } else {
                                    ParseStep::Parsed(bp + 1)
                                }
                            },
                            _ => ParseStep::Malformed,
                        }
                    }
                },
                _ => ParseStep::Malformed,
            }
        }
    } else if tv[pos] == kw("while"@) {
        if !(pos + 1 < tv.len() && tv[pos + 1] == sym('(')) {
            ParseStep::Malformed
        } else {
            match spec_rec_expression(tv, pos + 2) {
                ParseStep::Parsed(cp) => {
                    if !(pos + 2 < cp && cp + 1 < tv.len() && tv[cp] == sym(')') && tv[cp + 1]
                        == sym('{')) {
                        ParseStep::Malformed
                    } else {
                        match spec_rec_statements(tv, cp + 2) {
                            ParseStep::Parsed(bp) => {
                                if 0 <= bp < tv.len() && tv[bp] == sym('}') {
                                    ParseStep::Parsed(bp + 1)
                                } else {
                                    ParseStep::Malformed
                                }
                            },
                            _ => ParseStep::Malformed,
                        }
                    }
                },
                _ => ParseStep::Malformed,
            }
        }
    } else if tv[pos] == kw("do"@) {
        match spec_rec_call(tv, pos + 1) {
            ParseStep::Parsed(cp) => {
                if 0 <= cp < tv.len() && tv[cp] == sym(';') {
                    ParseStep::Parsed(cp + 1)
                } else {
                    ParseStep::Malformed
                }
            },
            _ => ParseStep::Malformed,
        }
    } else if tv[pos] == kw("return"@) {
        match spec_rec_expression(tv, pos + 1) {
            ParseStep::Parsed(vp) => {
                if 0 <= vp < tv.len() && tv[vp] == sym(';') {
                    ParseStep::Parsed(vp + 1)
                } else {
                    ParseStep::Malformed
                }
            },
            ParseStep::NotHere => {
                if pos + 1 < tv.len() && tv[pos + 1] == sym(';') {
                    ParseStep::Parsed(pos + 2)
                } else {
                    ParseStep::Malformed
                }
            },
            ParseStep::Malformed => ParseStep::Malformed,
        }
    } else {
        ParseStep::NotHere
    }
}

/// `statement*`.
pub open spec fn spec_rec_statements(tv: Seq<TokenView>, pos: int) -> ParseStep
    decreases tv.len() - pos, 7int,
{
    match spec_rec_statement(tv, pos) {
        ParseStep::NotHere => ParseStep::Parsed(pos),
        ParseStep::Malformed => ParseStep::Malformed,
        ParseStep::Parsed(p) => {
            if pos < p <= tv.len() {
                spec_rec_statements(tv, p)
            } else {
                ParseStep::Malformed
            }
        },
    }
}

/// One whole subroutine declaration.
pub open spec fn spec_rec_subroutine_dec(tv: Seq<TokenView>, pos: int) -> ParseStep {
    if !(0 <= pos < tv.len() && (tv[pos] == kw("constructor"@) || tv[pos] == kw("function"@)
        || tv[pos] == kw("method"@))) {
        ParseStep::NotHere
    } else if !(pos + 1 < tv.len()) {
        ParseStep::Malformed
    } else if !(tv[pos + 1] == kw("void"@) || spec_token_is_type(tv[pos + 1])) {
        ParseStep::Malformed
    } else if !(pos + 2 < tv.len() && tv[pos + 2] is Identifier) {
        ParseStep::Malformed
    } else if !(pos + 3 < tv.len() && tv[pos + 3] == sym('(')) {
        ParseStep::Malformed
    } else {
        match spec_rec_parameters(tv, pos + 4) {
            ParseStep::Parsed(pp) => {
                if !(pos + 4 <= pp && pp + 1 < tv.len() && tv[pp] == sym(')') && tv[pp + 1]
                    == sym('{')) {
                    ParseStep::Malformed
                } else {
                    match spec_rec_var_decs(tv, pp + 2) {
                        ParseStep::Parsed(vp) => {
                            match spec_rec_statements(tv, vp) {
                                ParseStep::Parsed(sp) => {
                                    if 0 <= sp < tv.len() && tv[sp] == sym('}') {
                                        ParseStep::Parsed(sp + 1)
                                    } else {
                                        ParseStep::Malformed
                                    }
                                },
                                _ => ParseStep::Malformed,
                            }
                        },
                        _ => ParseStep::Malformed,
                    }
                }
            },
            _ => ParseStep::Malformed,
        }
    }
}

/// `subroutineDec*`.
pub open spec fn spec_rec_subroutine_decs(tv: Seq<TokenView>, pos: int) -> ParseStep
    decreases tv.len() - pos,
{
    match spec_rec_subroutine_dec(tv, pos) {
        ParseStep::NotHere => ParseStep::Parsed(pos),
        ParseStep::Parsed(p) => {
            if pos < p <= tv.len() {
                spec_rec_subroutine_decs(tv, p)
            } else {
                ParseStep::Malformed
            }
        },
        ParseStep::Malformed => ParseStep::Malformed,
    }
}

/// One whole class.
pub open spec fn spec_rec_class(tv: Seq<TokenView>, pos: int) -> ParseStep {
    if !(0 <= pos < tv.len() && tv[pos] == kw("class"@)) {
        ParseStep::NotHere
    } else if !(pos + 1 < tv.len() && tv[pos + 1] is Identifier) {
        ParseStep::Malformed
    } else if !(pos + 2 < tv.len() && tv[pos + 2] == sym('{')) {
        ParseStep::Malformed
    } else {
        match spec_rec_class_var_decs(tv, pos + 3) {
            ParseStep::Parsed(vp) => {
                match spec_rec_subroutine_decs(tv, vp) {
                    ParseStep::Parsed(sp) => {
                        if 0 <= sp < tv.len() && tv[sp] == sym('}') {
                            ParseStep::Parsed(sp + 1)
                        } else {
                            ParseStep::Malformed
                        }
                    },
                    _ => ParseStep::Malformed,
                }
            },
            _ => ParseStep::Malformed,
        }
    }
}

// ----- the recursive-descent parser -----

proof fn lemma_subrange_join(s: Seq<TokenView>, a: int, b: int, c: int)
    requires
        0 <= a <= b <= c <= s.len(),
    ensures
        s.subrange(a, b) + s.subrange(b, c) == s.subrange(a, c),
{
    assert(s.subrange(a, b) + s.subrange(b, c) =~= s.subrange(a, c));
}

proof fn lemma_subrange_one(s: Seq<TokenView>, a: int)
    requires
        0 <= a < s.len(),
    ensures
        s.subrange(a, a + 1) == seq![s[a]],
{
    assert(s.subrange(a, a + 1) =~= seq![s[a]]);
}

/// Whether the token at `pos` is the symbol `c`.
fn peek_symbol(tokens: &Vec<Token>, pos: usize, c: char) -> (r: bool)
    ensures
        r == (pos < tokens.deep_view().len() && tokens.deep_view()[pos as int] == sym(c)),
{
    if pos < tokens.len() {
        proof {
            assert(tokens.deep_view()[pos as int] == tokens@[pos as int]@);
        }
        match &tokens[pos] {
            Token::Symbol(s) => *s == c,
            _ => false,
        }
    } else {
        false
    }
}

/// Whether the token at `pos` is the keyword `word`.
fn peek_keyword(tokens: &Vec<Token>, pos: usize, word: &str) -> (r: bool)
    ensures
        r == (pos < tokens.deep_view().len() && tokens.deep_view()[pos as int] == kw(word@)),
{
    if pos < tokens.len() {
        proof {
            assert(tokens.deep_view()[pos as int] == tokens@[pos as int]@);
        }
        match &tokens[pos] {
            Token::Keyword(s) => text::str_eq(s.as_str(), word),
            _ => false,
        }
    } else {
        false
    }
}

/// The identifier at `pos`, if the token there is one.
fn take_identifier(tokens: &Vec<Token>, pos: usize) -> (r: Option<String>)
    ensures
        match r {
            Some(s) => pos < tokens.deep_view().len() && tokens.deep_view()[pos as int]
                == idt(s@),
            None => !(pos < tokens.deep_view().len() && tokens.deep_view()[pos as int]
                is Identifier),
        },
{
    if pos < tokens.len() {
        proof {
            assert(tokens.deep_view()[pos as int] == tokens@[pos as int]@);
        }
        match &tokens[pos] {
            Token::Identifier(s) => Some(s.clone()),
            _ => None,
        }
    } else {
        None
    }
}

impl Type {
    /// Reads a type from one token: a primitive keyword or a class
    /// name.
    pub fn new(token: &Token) -> (r: Option<Type>)
        ensures
            match r {
                Some(t) => spec_type_token(t) == token@,
                None => !spec_token_is_type(token@),
            },
    {
        match token {
            Token::Keyword(v) => {
                if text::str_eq(v.as_str(), "int") { Some(Type::Int) }
                else if text::str_eq(v.as_str(), "char") { Some(Type::Char) }
                else if text::str_eq(v.as_str(), "boolean") { Some(Type::Boolean) }
                else { None }
            },
            Token::Identifier(v) => Some(Type::ClassName(v.clone())),
            _ => None,
        }
    }
}

/// Whether a token can begin (and be all of) a type.
pub open spec fn spec_token_is_type(t: TokenView) -> bool {
    match t {
        TokenView::Keyword(s) => s == "int"@ || s == "char"@ || s == "boolean"@,
        TokenView::Identifier(_) => true,
        _ => false,
    }
}

impl ClassVarDecType {
    /// Reads `static` or `field`.
    pub fn new(v: &str) -> (r: Option<ClassVarDecType>)
        ensures
            match r {
                Some(d) => spec_class_var_dec_type_token(d) == kw(v@),
                None => v@ != "static"@ && v@ != "field"@,
            },
    {
        if text::str_eq(v, "static") { Some(ClassVarDecType::Static) }
        else if text::str_eq(v, "field") { Some(ClassVarDecType::Field) }
        else { None }
    }
}

impl SubroutineType {
    /// Reads `constructor`, `function` or `method`.
    pub fn new(v: &str) -> (r: Option<SubroutineType>)
        ensures
            match r {
                Some(s) => spec_subroutine_type_token(s) == kw(v@),
                None => v@ != "constructor"@ && v@ != "function"@ && v@ != "method"@,
            },
    {
        if text::str_eq(v, "constructor") { Some(SubroutineType::Constructor) }
        else if text::str_eq(v, "function") { Some(SubroutineType::Function) }
        else if text::str_eq(v, "method") { Some(SubroutineType::Method) }
        else { None }
    }
}

impl SubroutineReturnType {
    /// Reads `void` or a type.
    pub fn new(token: &Token) -> (r: Option<SubroutineReturnType>)
        ensures
            match r {
                Some(t) => spec_return_type_token(t) == token@,
                None => token@ != kw("void"@) && !spec_token_is_type(token@),
            },
    {
        match token {
            Token::Keyword(v) => {
                if text::str_eq(v.as_str(), "void") {
                    return Some(SubroutineReturnType::Void);
                }
                match Type::new(token) {
                    Some(t) => Some(SubroutineReturnType::General(t)),
                    None => None,
                }
            },
            _ => {
                match Type::new(token) {
                    Some(t) => Some(SubroutineReturnType::General(t)),
                    None => None,
                }
            },
        }
    }
}

/// Parses `(',' varName)*`. A `None` with the position unmoved never
/// happens: failure here means a ',' was read but no name followed.
pub fn parse_extra_var_names(tokens: &Vec<Token>, pos: usize) -> (r: (Option<Vec<VarName>>, usize))
    requires
        pos <= tokens.deep_view().len(),
    ensures
        pos <= r.1 <= tokens.deep_view().len(),
        r.0 matches Some(v) ==> tokens.deep_view().subrange(pos as int, r.1 as int)
            == spec_extra_var_names_tokens(v@),
        ({
            let step = spec_rec_extra_var_names(tokens.deep_view(), pos as int);
            match r.0 {
                Some(_) => step == ParseStep::Parsed(r.1 as int),
                None => if r.1 == pos {
                    step == ParseStep::NotHere
                } else {
                    step == ParseStep::Malformed
                },
            }
        }),
{
    let ghost tv = tokens.deep_view();
    proof {
        assert(tv.len() == tokens@.len());
    }
    let n = tokens.len();
    let mut names: Vec<VarName> = Vec::new();
    let mut p = pos;
    proof {
        assert(n == tv.len());
        assert(tv.subrange(pos as int, pos as int) =~= spec_extra_var_names_tokens(names@));
    }
    while peek_symbol(tokens, p, ',')
        invariant
            pos <= p <= tv.len(),
            tv.len() <= usize::MAX,
            tv == tokens.deep_view(),
            tv.subrange(pos as int, p as int) == spec_extra_var_names_tokens(names@),
            spec_rec_extra_var_names(tv, pos as int) == spec_rec_extra_var_names(tv, p as int),
        decreases tv.len() - p,
    {
        match take_identifier(tokens, p + 1) {
            Some(name) => {
                let ghost old_names = names@;
                let ghost old_p = p as int;
                names.push(VarName(name));
                p = p + 2;
                proof {
                    lemma_subrange_one(tv, old_p);
                    lemma_subrange_one(tv, old_p + 1);
                    assert(names@.drop_last() =~= old_names);
                    assert(tv.subrange(old_p, p as int)
                        =~= seq![sym(','), idt(names@.last().0@)]);
                    lemma_subrange_join(tv, pos as int, old_p, p as int);
                }
            },
            None => {
                return (None, tokens.len());
            },
        }
    }
    (Some(names), p)
}

/// Parses one `static|field type name (, name)* ;` declaration; gives
/// nothing without moving when the next token opens no such
/// declaration.
pub fn parse_class_var_dec(tokens: &Vec<Token>, pos: usize) -> (r: (Option<ClassVarDec>, usize))
    requires
        pos <= tokens.deep_view().len(),
    ensures
        pos <= r.1 <= tokens.deep_view().len(),
        r.0 matches Some(d) ==> pos < r.1 && tokens.deep_view().subrange(pos as int, r.1 as int)
            == spec_class_var_dec_tokens(d),
        ({
            let step = spec_rec_class_var_dec(tokens.deep_view(), pos as int);
            match r.0 {
                Some(_) => step == ParseStep::Parsed(r.1 as int),
                None => if r.1 == pos {
                    step == ParseStep::NotHere
                } else {
                    step == ParseStep::Malformed
                },
            }
        }),
{
    let ghost tv = tokens.deep_view();
    proof {
        assert(tv.len() == tokens@.len());
    }
    let is_static = peek_keyword(tokens, pos, "static");
    let is_field = peek_keyword(tokens, pos, "field");
    if !is_static && !is_field {
        return (None, pos);
    }
    let dec_type = if is_static { ClassVarDecType::Static } else { ClassVarDecType::Field };
    if tokens.len() - pos < 2 {
        return (None, tokens.len());
    }
    proof {
        assert(tv[pos + 1] == tokens@[pos + 1int]@);
    }
    let var_type = match Type::new(&tokens[pos + 1]) {
        Some(t) => t,
        None => {
            return (None, tokens.len());
        },
    };
    let var_name = match take_identifier(tokens, pos + 2) {
        Some(s) => VarName(s),
        None => {
            return (None, tokens.len());
        },
    };
    let (extra, p) = match parse_extra_var_names(tokens, pos + 3) {
        (Some(v), p) => (v, p),
        (None, p) => {
            return (None, p);
        },
    };
    if !peek_symbol(tokens, p, ';') {
        return (None, p);
    }
    let d = ClassVarDec { dec_type, var_type, var_name, extra_var_names: extra };
    proof {
        lemma_subrange_one(tv, pos as int);
        lemma_subrange_one(tv, pos + 1);
        lemma_subrange_one(tv, pos + 2);
        lemma_subrange_one(tv, p as int);
        assert(tv.subrange(pos as int, pos + 3) =~= seq![
            spec_class_var_dec_type_token(d.dec_type),
            spec_type_token(d.var_type),
            idt(d.var_name.0@),
        ]);
        lemma_subrange_join(tv, pos as int, pos + 3, p as int);
        lemma_subrange_join(tv, pos as int, p as int, p + 1);
        assert(tv.subrange(pos as int, p + 1) =~= spec_class_var_dec_tokens(d));
    }
    (Some(d), p + 1)
}

/// Parses `classVarDec*`.
pub fn parse_class_var_decs(tokens: &Vec<Token>, pos: usize) -> (r: (
    Option<Vec<ClassVarDec>>,
    usize,
))
    requires
        pos <= tokens.deep_view().len(),
    ensures
        pos <= r.1 <= tokens.deep_view().len(),
        r.0 matches Some(v) ==> tokens.deep_view().subrange(pos as int, r.1 as int)
            == spec_class_var_decs_tokens(v@),
        ({
            let step = spec_rec_class_var_decs(tokens.deep_view(), pos as int);
            match r.0 {
                Some(_) => step == ParseStep::Parsed(r.1 as int),
                None => step == ParseStep::Malformed,
            }
        }),
{
    let ghost tv = tokens.deep_view();
    proof {
        assert(tv.len() == tokens@.len());
    }
    let mut decs: Vec<ClassVarDec> = Vec::new();
    let mut p = pos;
    proof {
        assert(tv.subrange(pos as int, pos as int) =~= spec_class_var_decs_tokens(decs@));
    }
    loop
        invariant
            pos <= p <= tv.len(),
            tv == tokens.deep_view(),
            tv.subrange(pos as int, p as int) == spec_class_var_decs_tokens(decs@),
            spec_rec_class_var_decs(tv, pos as int) == spec_rec_class_var_decs(tv, p as int),
        decreases tv.len() - p,
    {
        let (item, np) = parse_class_var_dec(tokens, p);
        match item {
            Some(d) => {
                let ghost old_decs = decs@;
                let ghost old_p = p as int;
                decs.push(d);
                proof {
                    assert(decs@.drop_last() =~= old_decs);
                    lemma_subrange_join(tv, pos as int, old_p, np as int);
                }
                p = np;
            },
            None => {
                if np == p {
                    return (Some(decs), p);
                }
                return (None, np);
            },
        }
    }
}

/// Parses one `var type name (, name)* ;` declaration; gives nothing
/// without moving when the next token is not `var`.
pub fn parse_var_dec(tokens: &Vec<Token>, pos: usize) -> (r: (Option<VarDec>, usize))
    requires
        pos <= tokens.deep_view().len(),
    ensures
        pos <= r.1 <= tokens.deep_view().len(),
        r.0 matches Some(d) ==> pos < r.1 && tokens.deep_view().subrange(pos as int, r.1 as int)
            == spec_var_dec_tokens(d),
        ({
            let step = spec_rec_var_dec(tokens.deep_view(), pos as int);
            match r.0 {
                Some(_) => step == ParseStep::Parsed(r.1 as int),
                None => if r.1 == pos {
                    step == ParseStep::NotHere
                } else {
                    step == ParseStep::Malformed
                },
            }
        }),
{
    let ghost tv = tokens.deep_view();
    proof {
        assert(tv.len() == tokens@.len());
    }
    if !peek_keyword(tokens, pos, "var") {
        return (None, pos);
    }
    if tokens.len() - pos < 2 {
        return (None, tokens.len());
    }
    proof {
        assert(tv[pos + 1] == tokens@[pos + 1int]@);
    }
    let var_type = match Type::new(&tokens[pos + 1]) {
        Some(t) => t,
        None => {
            return (None, tokens.len());
        },
    };
    let var_name = match take_identifier(tokens, pos + 2) {
        Some(s) => VarName(s),
        None => {
            return (None, tokens.len());
        },
    };
    let (extra, p) = match parse_extra_var_names(tokens, pos + 3) {
        (Some(v), p) => (v, p),
        (None, p) => {
            return (None, p);
        },
    };
    if !peek_symbol(tokens, p, ';') {
        return (None, p);
    }
    let d = VarDec { var_type, var_name, extra_var_names: extra };
    proof {
        lemma_subrange_one(tv, pos as int);
        lemma_subrange_one(tv, pos + 1);
        lemma_subrange_one(tv, pos + 2);
        lemma_subrange_one(tv, p as int);
        assert(tv.subrange(pos as int, pos + 3) =~= seq![
            kw("var"@),
            spec_type_token(d.var_type),
            idt(d.var_name.0@),
        ]);
        lemma_subrange_join(tv, pos as int, pos + 3, p as int);
        lemma_subrange_join(tv, pos as int, p as int, p + 1);
        assert(tv.subrange(pos as int, p + 1) =~= spec_var_dec_tokens(d));
    }
    (Some(d), p + 1)
}

/// Parses `varDec*`.
pub fn parse_var_decs(tokens: &Vec<Token>, pos: usize) -> (r: (Option<Vec<VarDec>>, usize))
    requires
        pos <= tokens.deep_view().len(),
    ensures
        pos <= r.1 <= tokens.deep_view().len(),
        r.0 matches Some(v) ==> tokens.deep_view().subrange(pos as int, r.1 as int)
            == spec_var_decs_tokens(v@),
        ({
            let step = spec_rec_var_decs(tokens.deep_view(), pos as int);
            match r.0 {
                Some(_) => step == ParseStep::Parsed(r.1 as int),
                None => step == ParseStep::Malformed,
            }
        }),
{
    let ghost tv = tokens.deep_view();
    proof {
        assert(tv.len() == tokens@.len());
    }
    let mut decs: Vec<VarDec> = Vec::new();
    let mut p = pos;
    proof {
        assert(tv.subrange(pos as int, pos as int) =~= spec_var_decs_tokens(decs@));
    }
    loop
        invariant
            pos <= p <= tv.len(),
            tv == tokens.deep_view(),
            tv.subrange(pos as int, p as int) == spec_var_decs_tokens(decs@),
            spec_rec_var_decs(tv, pos as int) == spec_rec_var_decs(tv, p as int),
        decreases tv.len() - p,
    {
        let (item, np) = parse_var_dec(tokens, p);
        match item {
            Some(d) => {
                let ghost old_decs = decs@;
                decs.push(d);
                proof {
                    assert(decs@.drop_last() =~= old_decs);
                    lemma_subrange_join(tv, pos as int, p as int, np as int);
                }
                p = np;
            },
            None => {
                if np == p {
                    return (Some(decs), p);
                }
                return (None, np);
            },
        }
    }
}

/// Parses a parameter list `(type name (, type name)*)?`, stopping
/// cleanly before a ')'.
pub fn parse_parameters(tokens: &Vec<Token>, pos: usize) -> (r: (Option<Vec<Parameter>>, usize))
    requires
        pos <= tokens.deep_view().len(),
    ensures
        pos <= r.1 <= tokens.deep_view().len(),
        r.0 matches Some(v) ==> tokens.deep_view().subrange(pos as int, r.1 as int)
            == spec_parameters_tokens(v@),
        ({
            let step = spec_rec_parameters(tokens.deep_view(), pos as int);
            match r.0 {
                Some(_) => step == ParseStep::Parsed(r.1 as int),
                None => if r.1 == pos {
                    step == ParseStep::NotHere
                } else {
                    step == ParseStep::Malformed
                },
            }
        }),
{
    let ghost tv = tokens.deep_view();
    proof {
        assert(tv.len() == tokens@.len());
    }
    let mut parameters: Vec<Parameter> = Vec::new();
    if peek_symbol(tokens, pos, ')') {
        proof {
            assert(tv.subrange(pos as int, pos as int) =~= spec_parameters_tokens(parameters@));
        }
        return (Some(parameters), pos);
    }
    if pos >= tokens.len() {
        return (None, pos);
    }
    proof {
        assert(tv[pos as int] == tokens@[pos as int]@);
    }
    let first_type = match Type::new(&tokens[pos]) {
        Some(t) => t,
        None => {
            return (None, tokens.len());
        },
    };
    let first_name = match take_identifier(tokens, pos + 1) {
        Some(s) => VarName(s),
        None => {
            return (None, tokens.len());
        },
    };
    parameters.push(Parameter(first_type, first_name));
    let mut p = pos + 2;
    proof {
        lemma_subrange_one(tv, pos as int);
        lemma_subrange_one(tv, pos + 1);
        assert(tv.subrange(pos as int, p as int) =~= spec_parameters_tokens(parameters@));
    }
    while peek_symbol(tokens, p, ',')
        invariant
            pos <= p <= tv.len(),
            tv.len() <= usize::MAX,
            tv == tokens.deep_view(),
            parameters@.len() >= 1,
            tv.subrange(pos as int, p as int) == spec_parameters_tokens(parameters@),
            spec_rec_parameters(tv, pos as int) == spec_rec_extra_parameters(tv, p as int),
        decreases tv.len() - p,
    {
        if tokens.len() - p < 2 {
            return (None, tokens.len());
        }
        proof {
            assert(tv[p + 1] == tokens@[p + 1int]@);
        }
        let var_type = match Type::new(&tokens[p + 1]) {
            Some(t) => t,
            None => {
                return (None, tokens.len());
            },
        };
        let var_name = match take_identifier(tokens, p + 2) {
            Some(s) => VarName(s),
            None => {
                return (None, tokens.len());
            },
        };
        let ghost old_params = parameters@;
        let ghost old_p = p as int;
        parameters.push(Parameter(var_type, var_name));
        p = p + 3;
        proof {
            lemma_subrange_one(tv, old_p);
            lemma_subrange_one(tv, old_p + 1);
            lemma_subrange_one(tv, old_p + 2);
            assert(parameters@.drop_last() =~= old_params);
            assert(tv.subrange(old_p, p as int) =~= seq![
                sym(','),
                spec_type_token(parameters@.last().0),
                idt(parameters@.last().1.0@),
            ]);
            lemma_subrange_join(tv, pos as int, old_p, p as int);
        }
    }
    (Some(parameters), p)
}

/// The operator a symbol character stands for, if any.
fn op_of_char(c: char) -> (r: Option<Op>)
    ensures
        match r {
            Some(op) => spec_op_char(op) == c,
            None => c != '+' && c != '-' && c != '*' && c != '/' && c != '&' && c != '|'
                && c != '<' && c != '>' && c != '=',
        },
{
    if c == '+' { Some(Op::Plus) }
    else if c == '-' { Some(Op::Minus) }
    else if c == '*' { Some(Op::Multiply) }
    else if c == '/' { Some(Op::Divide) }
    else if c == '&' { Some(Op::And) }
    else if c == '|' { Some(Op::Or) }
    else if c == '<' { Some(Op::Lt) }
    else if c == '>' { Some(Op::Gt) }
    else if c == '=' { Some(Op::Eq) }
    else { None }
}

impl Term {
    /// Parses one term. One token of lookahead after an identifier
    /// decides between a plain variable, an indexed variable, and the
    /// two call forms.
    #[verifier::rlimit(100)]
    #[verifier::spinoff_prover]
    pub fn parse(tokens: &Vec<Token>, pos: usize) -> (r: (Option<Term>, usize))
        requires
            pos <= tokens.deep_view().len(),
        ensures
            pos <= r.1 <= tokens.deep_view().len(),
            r.0 matches Some(t) ==> pos < r.1 && tokens.deep_view().subrange(
                pos as int,
                r.1 as int,
            ) == spec_term_tokens(t),
            ({
                let step = spec_rec_term(tokens.deep_view(), pos as int);
                match r.0 {
                    Some(_) => step == ParseStep::Parsed(r.1 as int),
                    None => if r.1 == pos {
                        step == ParseStep::NotHere
                    } else {
                        step == ParseStep::Malformed
                    },
                }
            }),
            r.0 matches Some(t) ==> ({
                let tv = tokens.deep_view();
                &&& (t is IntegerConstant ==> tv[pos as int] is Int)
                &&& (t is StringConstant ==> tv[pos as int] is String)
                &&& (t is KeywordConstant ==> tv[pos as int] is Keyword)
                &&& (t is VarName ==> tv[pos as int] is Identifier && !(pos + 1 < tv.len() && (
                    tv[pos + 1] == sym('[') || tv[pos + 1] == sym('(') || tv[pos + 1] == sym(
                    '.',
                ))))
                &&& (t is IndexVar ==> tv[pos as int] is Identifier && pos + 1 < tv.len()
                    && tv[pos + 1] == sym('['))
                &&& (t matches Term::Call(sc) ==> tv[pos as int] is Identifier && pos + 1
                    < tv.len() && (if sc.caller is None {
                    tv[pos + 1] == sym('(')
                } else {
                    tv[pos + 1] == sym('.')
                }))
                &&& (t is Expression ==> tv[pos as int] == sym('('))
                &&& (t is WithUnary ==> tv[pos as int] == sym('-') || tv[pos as int] == sym(
                    '~',
                ))
            }),
        decreases tokens.deep_view().len() - pos, 1int,
    {
        let ghost tv = tokens.deep_view();
        proof {
            assert(tv.len() == tokens@.len());
        }
        if pos >= tokens.len() {
            return (None, pos);
        }
        proof {
            assert(tv[pos as int] == tokens@[pos as int]@);
            lemma_subrange_one(tv, pos as int);
        }
        match &tokens[pos] {
            Token::Int(v) => (Some(Term::IntegerConstant(*v)), pos + 1),
            Token::String(s) => (Some(Term::StringConstant(s.clone())), pos + 1),
            Token::Keyword(s) => {
                let t = if text::str_eq(s.as_str(), "true") {
                    Some(Term::KeywordConstant(KeywordConstant::True))
                } else if text::str_eq(s.as_str(), "false") {
                    Some(Term::KeywordConstant(KeywordConstant::False))
                } else if text::str_eq(s.as_str(), "null") {
                    Some(Term::KeywordConstant(KeywordConstant::Null))
                } else if text::str_eq(s.as_str(), "this") {
                    Some(Term::KeywordConstant(KeywordConstant::This))
                } else {
                    None
                };
                match t {
                    Some(t) => (Some(t), pos + 1),
                    None => (None, pos),
                }
            },
            Token::Identifier(v) => {
                let v = v.clone();
                if peek_symbol(tokens, pos + 1, '[') {
                    let (inner, p) = Expression::parse(tokens, pos + 2);
                    match inner {
                        Some(e) => {
                            if peek_symbol(tokens, p, ']') {
                                let t = Term::IndexVar(v, Box::new(e));
                                proof {
                                    lemma_subrange_one(tv, pos + 1);
                                    lemma_subrange_one(tv, p as int);
                                    lemma_subrange_join(tv, pos as int, pos + 1, pos + 2);
                                    lemma_subrange_join(tv, pos as int, pos + 2, p as int);
                                    lemma_subrange_join(tv, pos as int, p as int, p + 1);
                                    assert(tv.subrange(pos as int, p + 1)
                                        =~= spec_term_tokens(t));
                                }
                                (Some(t), p + 1)
                            } else {
                                (None, tokens.len())
                            }
                        },
                        None => (None, tokens.len()),
                    }
                } else if peek_symbol(tokens, pos + 1, '(') {
                    let (list, p) = Expression::parse_list(tokens, pos + 2);
                    match list {
                        Some(es) => {
                            if peek_symbol(tokens, p, ')') {
                                let sc = SubroutineCall {
                                    caller: None,
                                    subroutine_name: SubroutineName(v),
                                    expression_list: es,
                                };
                                let t = Term::Call(sc);
                                proof {
                                    lemma_subrange_one(tv, pos + 1);
                                    lemma_subrange_one(tv, p as int);
                                    lemma_subrange_join(tv, pos as int, pos + 1, pos + 2);
                                    lemma_subrange_join(tv, pos as int, pos + 2, p as int);
                                    lemma_subrange_join(tv, pos as int, p as int, p + 1);
                                    assert(tv.subrange(pos as int, pos + 2)
                                        =~= seq![idt(v@), sym('(')]);
                                    assert(spec_call_tokens(t->Call_0) =~= tv.subrange(pos as int, p + 1));
                                    assert(tv.subrange(pos as int, p + 1)
                                        =~= spec_term_tokens(t));
                                }
                                (Some(t), p + 1)
                            } else {
                                (None, tokens.len())
                            }
                        },
                        None => (None, tokens.len()),
                    }
                } else if peek_symbol(tokens, pos + 1, '.') {
                    let name = match take_identifier(tokens, pos + 2) {
                        Some(s) => s,
                        None => {
                            return (None, tokens.len());
                        },
                    };
                    if !peek_symbol(tokens, pos + 3, '(') {
                        return (None, tokens.len());
                    }
                    let (list, p) = Expression::parse_list(tokens, pos + 4);
                    match list {
                        Some(es) => {
                            if peek_symbol(tokens, p, ')') {
                                let sc = SubroutineCall {
                                    caller: Some(v),
                                    subroutine_name: SubroutineName(name),
                                    expression_list: es,
                                };
                                let t = Term::Call(sc);
                                proof {
                                    lemma_subrange_one(tv, pos + 1);
                                    lemma_subrange_one(tv, pos + 2);
                                    lemma_subrange_one(tv, pos + 3);
                                    lemma_subrange_one(tv, p as int);
                                    lemma_subrange_join(tv, pos as int, pos + 1, pos + 2);
                                    lemma_subrange_join(tv, pos as int, pos + 2, pos + 3);
                                    lemma_subrange_join(tv, pos as int, pos + 3, pos + 4);
                                    lemma_subrange_join(tv, pos as int, pos + 4, p as int);
                                    lemma_subrange_join(tv, pos as int, p as int, p + 1);
                                    assert(tv.subrange(pos as int, pos + 2)
                                        =~= seq![idt(v@), sym('.')]);
                                    assert(tv.subrange(pos + 2, pos + 4)
                                        =~= seq![idt(name@), sym('(')]);
                                    assert(spec_call_tokens(t->Call_0)
                                        =~= tv.subrange(pos as int, p + 1));
                                    assert(tv.subrange(pos as int, p + 1)
                                        =~= spec_term_tokens(t));
                                }
                                (Some(t), p + 1)
                            } else {
                                (None, tokens.len())
                            }
                        },
                        None => (None, tokens.len()),
                    }
                } else {
                    (Some(Term::VarName(v)), pos + 1)
                }
            },
            Token::Symbol(c) => {
                if *c == '(' {
                    let (inner, p) = Expression::parse(tokens, pos + 1);
                    match inner {
                        Some(e) => {
                            if peek_symbol(tokens, p, ')') {
                                let t = Term::Expression(Box::new(e));
                                proof {
                                    lemma_subrange_one(tv, p as int);
                                    lemma_subrange_join(tv, pos as int, pos + 1, p as int);
                                    lemma_subrange_join(tv, pos as int, p as int, p + 1);
                                    assert(tv.subrange(pos as int, p + 1)
                                        =~= spec_term_tokens(t));
                                }
                                (Some(t), p + 1)
                            } else {
                                (None, tokens.len())
                            }
                        },
                        None => (None, tokens.len()),
                    }
                } else if *c == '-' || *c == '~' {
                    let op = if *c == '-' { UnaryOp::Negative } else { UnaryOp::Not };
                    let (inner, p) = Term::parse(tokens, pos + 1);
                    match inner {
                        Some(t0) => {
                            let t = Term::WithUnary(op, Box::new(t0));
                            proof {
                                lemma_subrange_join(tv, pos as int, pos + 1, p as int);
                                assert(tv.subrange(pos as int, p as int) =~= spec_term_tokens(t));
                            }
                            (Some(t), p)
                        },
                        None => (None, tokens.len()),
                    }
                } else {
                    (None, pos)
                }
            },
        }
    }
}

impl Expression {
    /// Parses a term followed by zero or more (op, term) pairs; the
    /// pairs bind left to right with no precedence, by design of the
    /// language.
    pub fn parse(tokens: &Vec<Token>, pos: usize) -> (r: (Option<Expression>, usize))
        requires
            pos <= tokens.deep_view().len(),
        ensures
            pos <= r.1 <= tokens.deep_view().len(),
            r.0 matches Some(e) ==> pos < r.1 && tokens.deep_view().subrange(
                pos as int,
                r.1 as int,
            ) == spec_expression_tokens(e),
            ({
                let step = spec_rec_expression(tokens.deep_view(), pos as int);
                match r.0 {
                    Some(_) => step == ParseStep::Parsed(r.1 as int),
                    None => if r.1 == pos {
                        step == ParseStep::NotHere
                    } else {
                        step == ParseStep::Malformed
                    },
                }
            }),
        decreases tokens.deep_view().len() - pos, 2int,
    {
        let ghost tv = tokens.deep_view();
        let n = tokens.len();
        proof {
            assert(tv.len() == n);
        }
        let (first, start) = Term::parse(tokens, pos);
        let term = match first {
            Some(t) => t,
            None => {
                return (None, start);
            },
        };
        let mut extra_op_terms: Vec<OpTerm> = Vec::new();
        let mut p = start;
        proof {
            assert(tv.subrange(start as int, start as int)
                =~= spec_op_terms_tokens(extra_op_terms@));
        }
        loop
            invariant
                pos < start <= p <= tv.len(),
                tv.len() <= usize::MAX,
                tv == tokens.deep_view(),
                tv.subrange(pos as int, start as int) == spec_term_tokens(term),
                tv.subrange(start as int, p as int) == spec_op_terms_tokens(extra_op_terms@),
                spec_rec_expression(tv, pos as int) == spec_rec_op_terms(tv, p as int),
            decreases tv.len() - p,
        {
            let mut op: Option<Op> = None;
            if p < tokens.len() {
                proof {
                    assert(tv[p as int] == tokens@[p as int]@);
                }
                match &tokens[p] {
                    Token::Symbol(c) => {
                        op = op_of_char(*c);
                    },
                    _ => {},
                }
            }
            match op {
                None => {
                    let e = Expression { term, extra_op_terms };
                    proof {
                        lemma_subrange_join(tv, pos as int, start as int, p as int);
                        assert(tv.subrange(pos as int, p as int) =~= spec_expression_tokens(e));
                    }
                    return (Some(e), p);
                },
                Some(op) => {
                    let (next, np) = Term::parse(tokens, p + 1);
                    match next {
                        Some(t) => {
                            let ghost old_ots = extra_op_terms@;
                            let ghost old_p = p as int;
                            extra_op_terms.push(OpTerm(op, t));
                            proof {
                                lemma_subrange_one(tv, old_p);
                                assert(extra_op_terms@.drop_last() =~= old_ots);
                                lemma_subrange_join(tv, old_p, old_p + 1, np as int);
                                assert(tv.subrange(old_p, np as int)
                                    =~= seq![sym(spec_op_char(extra_op_terms@.last().0))]
                                    + spec_term_tokens(extra_op_terms@.last().1));
                                lemma_subrange_join(tv, start as int, old_p, np as int);
                            }
                            p = np;
                        },
                        None => {
                            return (None, tokens.len());
                        },
                    }
                },
            }
        }
    }

    /// Parses a comma-separated expression list, possibly empty.
    pub fn parse_list(tokens: &Vec<Token>, pos: usize) -> (r: (Option<Vec<Expression>>, usize))
        requires
            pos <= tokens.deep_view().len(),
        ensures
            pos <= r.1 <= tokens.deep_view().len(),
            r.0 matches Some(v) ==> tokens.deep_view().subrange(pos as int, r.1 as int)
                == spec_expression_list_tokens(v@),
            ({
                let step = spec_rec_expression_list(tokens.deep_view(), pos as int);
                match r.0 {
                    Some(_) => step == ParseStep::Parsed(r.1 as int),
                    None => step == ParseStep::Malformed,
                }
            }),
        decreases tokens.deep_view().len() - pos, 3int,
    {
        let ghost tv = tokens.deep_view();
        let n = tokens.len();
        proof {
            assert(tv.len() == n);
        }
        let mut list: Vec<Expression> = Vec::new();
        let (first, start) = Expression::parse(tokens, pos);
        match first {
            Some(e) => {
                list.push(e);
            },
            None => {
                if start == pos {
                    proof {
                        assert(tv.subrange(pos as int, pos as int)
                            =~= spec_expression_list_tokens(list@));
                    }
                    return (Some(list), pos);
                }
                return (None, start);
            },
        }
        let mut p = start;
        while peek_symbol(tokens, p, ',')
            invariant
                pos <= p <= tv.len(),
                tv.len() <= usize::MAX,
                tv == tokens.deep_view(),
                list@.len() >= 1,
                tv.subrange(pos as int, p as int) == spec_expression_list_tokens(list@),
                spec_rec_expression_list(tv, pos as int) == spec_rec_extra_expressions(
                    tv,
                    p as int,
                ),
            decreases tv.len() - p,
        {
            let (next, np) = Expression::parse(tokens, p + 1);
            match next {
                Some(e) => {
                    let ghost old_list = list@;
                    let ghost old_p = p as int;
                    list.push(e);
                    proof {
                        lemma_subrange_one(tv, old_p);
                        assert(list@.drop_last() =~= old_list);
                        lemma_subrange_join(tv, old_p, old_p + 1, np as int);
                        lemma_subrange_join(tv, pos as int, old_p, np as int);
                        assert(tv.subrange(pos as int, np as int)
                            =~= spec_expression_list_tokens(list@));
                    }
                    p = np;
                },
                None => {
                    return (None, tokens.len());
                },
            }
        }
        (Some(list), p)
    }
}

impl SubroutineCall {
    /// Parses `name(args)` or `receiver.name(args)`.
    pub fn parse(tokens: &Vec<Token>, pos: usize) -> (r: (Option<SubroutineCall>, usize))
        requires
            pos <= tokens.deep_view().len(),
        ensures
            pos <= r.1 <= tokens.deep_view().len(),
            r.0 matches Some(sc) ==> pos < r.1 && tokens.deep_view().subrange(
                pos as int,
                r.1 as int,
            ) == spec_call_tokens(sc),
            ({
                let step = spec_rec_call(tokens.deep_view(), pos as int);
                match r.0 {
                    Some(_) => step == ParseStep::Parsed(r.1 as int),
                    None => if r.1 == pos {
                        step == ParseStep::NotHere
                    } else {
                        step == ParseStep::Malformed
                    },
                }
            }),
        decreases tokens.deep_view().len() - pos, 4int,
    {
        let ghost tv = tokens.deep_view();
        let n = tokens.len();
        proof {
            assert(tv.len() == n);
        }
        let v = match take_identifier(tokens, pos) {
            Some(s) => s,
            None => {
                return (None, pos);
            },
        };
        proof {
            lemma_subrange_one(tv, pos as int);
        }
        if peek_symbol(tokens, pos + 1, '(') {
            let (list, p) = Expression::parse_list(tokens, pos + 2);
            match list {
                Some(es) => {
                    if peek_symbol(tokens, p, ')') {
                        let sc = SubroutineCall {
                            caller: None,
                            subroutine_name: SubroutineName(v),
                            expression_list: es,
                        };
                        proof {
                            lemma_subrange_one(tv, pos + 1);
                            lemma_subrange_one(tv, p as int);
                            lemma_subrange_join(tv, pos as int, pos + 1, pos + 2);
                            lemma_subrange_join(tv, pos as int, pos + 2, p as int);
                            lemma_subrange_join(tv, pos as int, p as int, p + 1);
                            assert(tv.subrange(pos as int, p + 1) =~= spec_call_tokens(sc));
                        }
                        (Some(sc), p + 1)
                    } else {
                        (None, tokens.len())
                    }
                },
                None => (None, tokens.len()),
            }
        } else if peek_symbol(tokens, pos + 1, '.') {
            let name = match take_identifier(tokens, pos + 2) {
                Some(s) => s,
                None => {
                    return (None, tokens.len());
                },
            };
            if !peek_symbol(tokens, pos + 3, '(') {
                return (None, tokens.len());
            }
            let (list, p) = Expression::parse_list(tokens, pos + 4);
            match list {
                Some(es) => {
                    if peek_symbol(tokens, p, ')') {
                        let sc = SubroutineCall {
                            caller: Some(v),
                            subroutine_name: SubroutineName(name),
                            expression_list: es,
                        };
                        proof {
                            lemma_subrange_one(tv, pos + 1);
                            lemma_subrange_one(tv, pos + 2);
                            lemma_subrange_one(tv, pos + 3);
                            lemma_subrange_one(tv, p as int);
                            lemma_subrange_join(tv, pos as int, pos + 1, pos + 2);
                            lemma_subrange_join(tv, pos as int, pos + 2, pos + 3);
                            lemma_subrange_join(tv, pos as int, pos + 3, pos + 4);
                            lemma_subrange_join(tv, pos as int, pos + 4, p as int);
                            lemma_subrange_join(tv, pos as int, p as int, p + 1);
                            assert(tv.subrange(pos as int, p + 1) =~= spec_call_tokens(sc));
                        }
                        (Some(sc), p + 1)
                    } else {
                        (None, tokens.len())
                    }
                },
                None => (None, tokens.len()),
            }
        } else {
            (None, if pos + 1 <= tokens.len() { pos + 1 } else { tokens.len() })
        }
    }
}

/// Parses one statement; gives nothing without moving when the next
/// token opens no statement.
#[verifier::rlimit(100)]
#[verifier::spinoff_prover]
pub fn parse_statement(tokens: &Vec<Token>, pos: usize) -> (r: (Option<Statement>, usize))
    requires
        pos <= tokens.deep_view().len(),
    ensures
        pos <= r.1 <= tokens.deep_view().len(),
        r.0 matches Some(st) ==> pos < r.1 && tokens.deep_view().subrange(pos as int, r.1 as int)
            == spec_statement_tokens(st),
        ({
            let step = spec_rec_statement(tokens.deep_view(), pos as int);
            match r.0 {
                Some(_) => step == ParseStep::Parsed(r.1 as int),
                None => if r.1 == pos {
                    step == ParseStep::NotHere
                } else {
                    step == ParseStep::Malformed
                },
            }
        }),
        r.0 matches Some(st) ==> ({
            let tv = tokens.deep_view();
            &&& (st is Let ==> tv[pos as int] == kw("let"@))
            &&& (st is If ==> tv[pos as int] == kw("if"@))
            &&& (st is While ==> tv[pos as int] == kw("while"@))
            &&& (st is Do ==> tv[pos as int] == kw("do"@))
            &&& (st is Return ==> tv[pos as int] == kw("return"@))
        }),
    decreases tokens.deep_view().len() - pos, 5int,
{
    let ghost tv = tokens.deep_view();
    let n = tokens.len();
    proof {
        assert(tv.len() == n);
    }
    if peek_keyword(tokens, pos, "let") {
        let var_name = match take_identifier(tokens, pos + 1) {
            Some(s) => VarName(s),
            None => {
                return (None, n);
            },
        };
        let mut p = pos + 2;
        let mut index_expression: Option<Expression> = None;
        let ghost index_start = p as int;
        if peek_symbol(tokens, p, '[') {
            let (inner, ip) = Expression::parse(tokens, p + 1);
            match inner {
                Some(e) => {
                    if !peek_symbol(tokens, ip, ']') {
                        return (None, n);
                    }
                    proof {
                        lemma_subrange_one(tv, p as int);
                        lemma_subrange_one(tv, ip as int);
                        lemma_subrange_join(tv, p as int, p + 1, ip as int);
                        lemma_subrange_join(tv, p as int, ip as int, ip + 1);
                        assert(tv.subrange(p as int, ip + 1) =~= seq![sym('[')]
                            + spec_expression_tokens(e) + seq![sym(']')]);
                    }
                    index_expression = Some(e);
                    p = ip + 1;
                },
                None => {
                    return (None, n);
                },
            }
        }
        if !peek_symbol(tokens, p, '=') {
            return (None, n);
        }
        let (rhs, rp) = Expression::parse(tokens, p + 1);
        let expression = match rhs {
            Some(e) => e,
            None => {
                return (None, n);
            },
        };
        if !peek_symbol(tokens, rp, ';') {
            return (None, n);
        }
        let st = Statement::Let(LetStatement { var_name, index_expression, expression });
        proof {
            lemma_subrange_one(tv, pos as int);
            lemma_subrange_one(tv, pos + 1);
            lemma_subrange_one(tv, p as int);
            lemma_subrange_one(tv, rp as int);
            lemma_subrange_join(tv, pos as int, pos + 1, pos + 2);
            if st->Let_0.index_expression is None {
                assert(tv.subrange(index_start, p as int)
                    =~= Seq::<TokenView>::empty());
            }
            lemma_subrange_join(tv, pos as int, index_start, p as int);
            lemma_subrange_join(tv, pos as int, p as int, p + 1);
            lemma_subrange_join(tv, pos as int, p + 1, rp as int);
            lemma_subrange_join(tv, pos as int, rp as int, rp + 1);
            assert(tv.subrange(pos as int, pos + 2)
                =~= seq![kw("let"@), idt(st->Let_0.var_name.0@)]);
            assert(tv.subrange(pos as int, rp + 1) =~= spec_statement_tokens(st));
        }
        (Some(st), rp + 1)
    } else if peek_keyword(tokens, pos, "if") {
        if !peek_symbol(tokens, pos + 1, '(') {
            return (None, n);
        }
        let (cond, cp) = Expression::parse(tokens, pos + 2);
        let expression = match cond {
            Some(e) => e,
            None => {
                return (None, n);
            },
        };
        if !peek_symbol(tokens, cp, ')') {
            return (None, n);
        }
        if !peek_symbol(tokens, cp + 1, '{') {
            return (None, n);
        }
        let (body, bp) = Statements::parse(tokens, cp + 2);
        let if_statements = match body {
            Some(ss) => ss,
            None => {
                return (None, n);
            },
        };
        if !peek_symbol(tokens, bp, '}') {
            return (None, n);
        }
        let mut p = bp + 1;
        let ghost else_start = p as int;
        let mut else_statements: Option<Statements> = None;
        if peek_keyword(tokens, p, "else") {
            if !peek_symbol(tokens, p + 1, '{') {
                return (None, n);
            }
            let (ebody, ep) = Statements::parse(tokens, p + 2);
            match ebody {
                Some(ss) => {
                    if !peek_symbol(tokens, ep, '}') {
                        return (None, n);
                    }
                    proof {
                        lemma_subrange_one(tv, p as int);
                        lemma_subrange_one(tv, p + 1);
                        lemma_subrange_one(tv, ep as int);
                        lemma_subrange_join(tv, p as int, p + 1, p + 2);
                        lemma_subrange_join(tv, p as int, p + 2, ep as int);
                        lemma_subrange_join(tv, p as int, ep as int, ep + 1);
                        assert(tv.subrange(p as int, ep + 1) =~= seq![kw("else"@), sym('{')]
                            + spec_statements_tokens(ss.0@) + seq![sym('}')]);
                    }
                    else_statements = Some(ss);
                    p = ep + 1;
                },
                None => {
                    return (None, n);
                },
            }
        }
        let st = Statement::If(
            Box::new(IfStatement { expression, if_statements, else_statements }),
        );
        proof {
            lemma_subrange_one(tv, pos as int);
            lemma_subrange_one(tv, pos + 1);
            lemma_subrange_one(tv, cp as int);
            lemma_subrange_one(tv, cp + 1);
            lemma_subrange_one(tv, bp as int);
            lemma_subrange_join(tv, pos as int, pos + 1, pos + 2);
            lemma_subrange_join(tv, pos as int, pos + 2, cp as int);
            lemma_subrange_join(tv, pos as int, cp as int, cp + 1);
            lemma_subrange_join(tv, pos as int, cp + 1, cp + 2);
            lemma_subrange_join(tv, pos as int, cp + 2, bp as int);
            lemma_subrange_join(tv, pos as int, bp as int, bp + 1);
            if else_start == p as int {
                assert(tv.subrange(else_start, p as int) =~= Seq::<TokenView>::empty());
            }
            lemma_subrange_join(tv, pos as int, else_start, p as int);
            assert(tv.subrange(cp as int, cp + 2) =~= seq![sym(')'), sym('{')]);
            assert(tv.subrange(pos as int, pos + 2) =~= seq![kw("if"@), sym('(')]);
            assert(tv.subrange(pos as int, p as int) =~= spec_statement_tokens(st));
        }
        (Some(st), p)
    } else if peek_keyword(tokens, pos, "while") {
        if !peek_symbol(tokens, pos + 1, '(') {
            return (None, n);
        }
        let (cond, cp) = Expression::parse(tokens, pos + 2);
        let expression = match cond {
            Some(e) => e,
            None => {
                return (None, n);
            },
        };
        if !peek_symbol(tokens, cp, ')') {
            return (None, n);
        }
        if !peek_symbol(tokens, cp + 1, '{') {
            return (None, n);
        }
        let (body, bp) = Statements::parse(tokens, cp + 2);
        let statements = match body {
            Some(ss) => ss,
            None => {
                return (None, n);
            },
        };
        if !peek_symbol(tokens, bp, '}') {
            return (None, n);
        }
        let st = Statement::While(Box::new(WhileStatement { expression, statements }));
        proof {
            lemma_subrange_one(tv, pos as int);
            lemma_subrange_one(tv, pos + 1);
            lemma_subrange_one(tv, cp as int);
            lemma_subrange_one(tv, cp + 1);
            lemma_subrange_one(tv, bp as int);
            lemma_subrange_join(tv, pos as int, pos + 1, pos + 2);
            lemma_subrange_join(tv, pos as int, pos + 2, cp as int);
            lemma_subrange_join(tv, pos as int, cp as int, cp + 1);
            lemma_subrange_join(tv, pos as int, cp + 1, cp + 2);
            lemma_subrange_join(tv, pos as int, cp + 2, bp as int);
            lemma_subrange_join(tv, pos as int, bp as int, bp + 1);
            assert(tv.subrange(cp as int, cp + 2) =~= seq![sym(')'), sym('{')]);
            assert(tv.subrange(pos as int, pos + 2) =~= seq![kw("while"@), sym('(')]);
            assert(tv.subrange(pos as int, bp + 1) =~= spec_statement_tokens(st));
        }
        (Some(st), bp + 1)
    } else if peek_keyword(tokens, pos, "do") {
        let (call, cp) = SubroutineCall::parse(tokens, pos + 1);
        let sc = match call {
            Some(sc) => sc,
            None => {
                return (None, n);
            },
        };
        if !peek_symbol(tokens, cp, ';') {
            return (None, n);
        }
        let st = Statement::Do(sc);
        proof {
            lemma_subrange_one(tv, pos as int);
            lemma_subrange_one(tv, cp as int);
            lemma_subrange_join(tv, pos as int, pos + 1, cp as int);
            lemma_subrange_join(tv, pos as int, cp as int, cp + 1);
            assert(tv.subrange(pos as int, cp + 1) =~= spec_statement_tokens(st));
        }
        (Some(st), cp + 1)
    } else if peek_keyword(tokens, pos, "return") {
        let (value, vp) = Expression::parse(tokens, pos + 1);
        let ghost value_end = vp as int;
        match value {
            Some(e) => {
                if !peek_symbol(tokens, vp, ';') {
                    return (None, n);
                }
                let st = Statement::Return(Some(e));
                proof {
                    lemma_subrange_one(tv, pos as int);
                    lemma_subrange_one(tv, vp as int);
                    lemma_subrange_join(tv, pos as int, pos + 1, vp as int);
                    lemma_subrange_join(tv, pos as int, vp as int, vp + 1);
                    assert(tv.subrange(pos as int, vp + 1) =~= spec_statement_tokens(st));
                }
                (Some(st), vp + 1)
            },
            None => {
                if vp != pos + 1 {
                    return (None, n);
                }
                if !peek_symbol(tokens, pos + 1, ';') {
                    return (None, n);
                }
                let st = Statement::Return(None);
                proof {
                    lemma_subrange_one(tv, pos as int);
                    lemma_subrange_one(tv, pos + 1);
                    lemma_subrange_join(tv, pos as int, pos + 1, pos + 2);
                    assert(tv.subrange(pos as int, pos + 2) =~= spec_statement_tokens(st));
                }
                (Some(st), pos + 2)
            },
        }
    } else {
        (None, pos)
    }
}

impl Statements {
    /// Parses `statement*`.
    pub fn parse(tokens: &Vec<Token>, pos: usize) -> (r: (Option<Statements>, usize))
        requires
            pos <= tokens.deep_view().len(),
        ensures
            pos <= r.1 <= tokens.deep_view().len(),
            r.0 matches Some(ss) ==> tokens.deep_view().subrange(pos as int, r.1 as int)
                == spec_statements_tokens(ss.0@),
            ({
                let step = spec_rec_statements(tokens.deep_view(), pos as int);
                match r.0 {
                    Some(_) => step == ParseStep::Parsed(r.1 as int),
                    None => step == ParseStep::Malformed,
                }
            }),
        decreases tokens.deep_view().len() - pos, 6int,
    {
        let ghost tv = tokens.deep_view();
        let n = tokens.len();
        proof {
            assert(tv.len() == n);
        }
        let mut list: Vec<Statement> = Vec::new();
        let mut p = pos;
        proof {
            assert(tv.subrange(pos as int, pos as int) =~= spec_statements_tokens(list@));
        }
        loop
            invariant
                pos <= p <= tv.len(),
                tv.len() <= usize::MAX,
                tv == tokens.deep_view(),
                tv.subrange(pos as int, p as int) == spec_statements_tokens(list@),
                spec_rec_statements(tv, pos as int) == spec_rec_statements(tv, p as int),
            decreases tv.len() - p, 7int,
        {
            let (item, np) = parse_statement(tokens, p);
            match item {
                Some(st) => {
                    let ghost old_list = list@;
                    list.push(st);
                    proof {
                        assert(list@.drop_last() =~= old_list);
                        lemma_subrange_join(tv, pos as int, p as int, np as int);
                    }
                    p = np;
                },
                None => {
                    if np == p {
                        return (Some(Statements(list)), p);
                    }
                    return (None, np);
                },
            }
        }
    }
}

/// Parses one subroutine declaration; gives nothing without moving
/// when the next token opens none.
pub fn parse_subroutine_dec(tokens: &Vec<Token>, pos: usize) -> (r: (
    Option<SubroutineDec>,
    usize,
))
    requires
        pos <= tokens.deep_view().len(),
    ensures
        pos <= r.1 <= tokens.deep_view().len(),
        r.0 matches Some(d) ==> pos < r.1 && tokens.deep_view().subrange(pos as int, r.1 as int)
            == spec_subroutine_dec_tokens(d),
        ({
            let step = spec_rec_subroutine_dec(tokens.deep_view(), pos as int);
            match r.0 {
                Some(_) => step == ParseStep::Parsed(r.1 as int),
                None => if r.1 == pos {
                    step == ParseStep::NotHere
                } else {
                    step == ParseStep::Malformed
                },
            }
        }),
{
    let ghost tv = tokens.deep_view();
    let n = tokens.len();
    proof {
        assert(tv.len() == n);
    }
    if pos >= n {
        return (None, pos);
    }
    proof {
        assert(tv[pos as int] == tokens@[pos as int]@);
    }
    let subroutine_type = match &tokens[pos] {
        Token::Keyword(s) => {
            match SubroutineType::new(s.as_str()) {
                Some(t) => t,
                None => {
                    return (None, pos);
                },
            }
        },
        _ => {
            return (None, pos);
        },
    };
    if pos + 1 >= n {
        return (None, n);
    }
    proof {
        assert(tv[pos + 1] == tokens@[pos + 1int]@);
    }
    let return_type = match SubroutineReturnType::new(&tokens[pos + 1]) {
        Some(t) => t,
        None => {
            return (None, n);
        },
    };
    let name = match take_identifier(tokens, pos + 2) {
        Some(s) => SubroutineName(s),
        None => {
            return (None, n);
        },
    };
    if !peek_symbol(tokens, pos + 3, '(') {
        return (None, n);
    }
    let (params, pp) = parse_parameters(tokens, pos + 4);
    let parameters = match params {
        Some(v) => v,
        None => {
            return (None, n);
        },
    };
    if !peek_symbol(tokens, pp, ')') {
        return (None, n);
    }
    if !peek_symbol(tokens, pp + 1, '{') {
        return (None, n);
    }
    let (vdecs, vp) = parse_var_decs(tokens, pp + 2);
    let var_decs = match vdecs {
        Some(v) => v,
        None => {
            return (None, n);
        },
    };
    let (stmts, sp) = Statements::parse(tokens, vp);
    let statements = match stmts {
        Some(ss) => ss,
        None => {
            return (None, n);
        },
    };
    if !peek_symbol(tokens, sp, '}') {
        return (None, n);
    }
    let d = SubroutineDec {
        subroutine_type,
        return_type,
        name,
        parameters,
        body: SubroutineBody { var_decs, statements },
    };
    proof {
        lemma_subrange_one(tv, pos as int);
        lemma_subrange_one(tv, pos + 1);
        lemma_subrange_one(tv, pos + 2);
        lemma_subrange_one(tv, pos + 3);
        lemma_subrange_one(tv, pp as int);
        lemma_subrange_one(tv, pp + 1);
        lemma_subrange_one(tv, sp as int);
        lemma_subrange_join(tv, pos as int, pos + 1, pos + 2);
        lemma_subrange_join(tv, pos as int, pos + 2, pos + 3);
        lemma_subrange_join(tv, pos as int, pos + 3, pos + 4);
        lemma_subrange_join(tv, pos as int, pos + 4, pp as int);
        lemma_subrange_join(tv, pos as int, pp as int, pp + 1);
        lemma_subrange_join(tv, pos as int, pp + 1, pp + 2);
        lemma_subrange_join(tv, pos as int, pp + 2, vp as int);
        lemma_subrange_join(tv, pos as int, vp as int, sp as int);
        lemma_subrange_join(tv, pos as int, sp as int, sp + 1);
        assert(tv.subrange(pos as int, pos + 4) =~= seq![
            spec_subroutine_type_token(d.subroutine_type),
            spec_return_type_token(d.return_type),
            idt(d.name.0@),
            sym('('),
        ]);
        assert(tv.subrange(pp as int, pp + 2) =~= seq![sym(')'), sym('{')]);
        assert(tv.subrange(pos as int, sp + 1) =~= spec_subroutine_dec_tokens(d));
    }
    (Some(d), sp + 1)
}

/// Parses `subroutineDec*`.
pub fn parse_subroutine_decs(tokens: &Vec<Token>, pos: usize) -> (r: (
    Option<Vec<SubroutineDec>>,
    usize,
))
    requires
        pos <= tokens.deep_view().len(),
    ensures
        pos <= r.1 <= tokens.deep_view().len(),
        r.0 matches Some(v) ==> tokens.deep_view().subrange(pos as int, r.1 as int)
            == spec_subroutine_decs_tokens(v@),
        ({
            let step = spec_rec_subroutine_decs(tokens.deep_view(), pos as int);
            match r.0 {
                Some(_) => step == ParseStep::Parsed(r.1 as int),
                None => step == ParseStep::Malformed,
            }
        }),
{
    let ghost tv = tokens.deep_view();
    let mut decs: Vec<SubroutineDec> = Vec::new();
    let mut p = pos;
    proof {
        assert(tv.len() == tokens@.len());
        assert(tv.subrange(pos as int, pos as int) =~= spec_subroutine_decs_tokens(decs@));
    }
    loop
        invariant
            pos <= p <= tv.len(),
            tv == tokens.deep_view(),
            tv.subrange(pos as int, p as int) == spec_subroutine_decs_tokens(decs@),
            spec_rec_subroutine_decs(tv, pos as int) == spec_rec_subroutine_decs(tv, p as int),
        decreases tv.len() - p,
    {
        let (item, np) = parse_subroutine_dec(tokens, p);
        match item {
            Some(d) => {
                let ghost old_decs = decs@;
                decs.push(d);
                proof {
                    assert(decs@.drop_last() =~= old_decs);
                    lemma_subrange_join(tv, pos as int, p as int, np as int);
                }
                p = np;
            },
            None => {
                if np == p {
                    return (Some(decs), p);
                }
                return (None, np);
            },
        }
    }
}

/// Parses one whole class; gives nothing without moving when the
/// input does not open with the `class` keyword.
pub fn parse_class(tokens: &Vec<Token>, pos: usize) -> (r: (Option<Class>, usize))
    requires
        pos <= tokens.deep_view().len(),
    ensures
        pos <= r.1 <= tokens.deep_view().len(),
        r.0 matches Some(c) ==> pos < r.1 && tokens.deep_view().subrange(pos as int, r.1 as int)
            == spec_class_tokens(c),
        ({
            let step = spec_rec_class(tokens.deep_view(), pos as int);
            match r.0 {
                Some(_) => step == ParseStep::Parsed(r.1 as int),
                None => if r.1 == pos {
                    step == ParseStep::NotHere
                } else {
                    step == ParseStep::Malformed
                },
            }
        }),
{
    let ghost tv = tokens.deep_view();
    let n = tokens.len();
    proof {
        assert(tv.len() == n);
    }
    if !peek_keyword(tokens, pos, "class") {
        return (None, pos);
    }
    let name = match take_identifier(tokens, pos + 1) {
        Some(s) => ClassName(s),
        None => {
            return (None, n);
        },
    };
    if !peek_symbol(tokens, pos + 2, '{') {
        return (None, n);
    }
    let (vdecs, vp) = parse_class_var_decs(tokens, pos + 3);
    let class_var_decs = match vdecs {
        Some(v) => v,
        None => {
            return (None, n);
        },
    };
    let (sdecs, sp) = parse_subroutine_decs(tokens, vp);
    let subroutine_decs = match sdecs {
        Some(v) => v,
        None => {
            return (None, n);
        },
    };
    if !peek_symbol(tokens, sp, '}') {
        return (None, n);
    }
    let c = Class { name, class_var_decs, subroutine_decs };
    proof {
        lemma_subrange_one(tv, pos as int);
        lemma_subrange_one(tv, pos + 1);
        lemma_subrange_one(tv, pos + 2);
        lemma_subrange_one(tv, sp as int);
        lemma_subrange_join(tv, pos as int, pos + 1, pos + 2);
        lemma_subrange_join(tv, pos as int, pos + 2, pos + 3);
        lemma_subrange_join(tv, pos as int, pos + 3, vp as int);
        lemma_subrange_join(tv, pos as int, vp as int, sp as int);
        lemma_subrange_join(tv, pos as int, sp as int, sp + 1);
        assert(tv.subrange(pos as int, pos + 3) =~= seq![
            kw("class"@),
            idt(c.name.0@),
            sym('{'),
        ]);
        assert(tv.subrange(pos as int, sp + 1) =~= spec_class_tokens(c));
    }
    (Some(c), sp + 1)
}

} // verus!
